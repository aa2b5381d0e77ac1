//! The scanner: turns source text into tokens.
use vstd::prelude::*;
use crate::ast::laws::{law_panics_only_on_dangling_escape, lemma_run_unfold, lemma_step_panics};
use crate::ast::lexing::{
    digit_chars, error_message, has_fraction, join_errors, keyword_table, lemma_newlines_extend,
    lemma_scan_while_exact, lemma_step_bounds, lookup_keyword, message, newlines, next_is,
    not_newline, not_quote, option_seq, peek_at, scan_char, scan_fstring, scan_number, scan_run,
    scan_step, scan_string, scan_while, scan_word, semi_after, semicolons, word_chars, Lexed,
    ScanErrorKind,
};
use crate::ast::text::{
    all_digits, chars_equal, chars_to_string, is_alphabetic, is_alphanumeric, is_digit,
    is_digit_char, parse_digits, push_char, push_decimal,
};
use crate::ast::tokens::{
    duplicate_tokens, literal_model, token_models, LiteralValue, Token, TokenModel, TokenType,
};

verus! {

/// The keywords of the language, each with the kind of token it is read as.
fn get_keywords() -> (res: Vec<(Vec<char>, TokenType)>)
    ensures
        keyword_models(res@) == keyword_table(),
{
    let res = vec![
        (vec!['f', 'n'], TokenType::Fn),
        (vec!['l', 'e', 't'], TokenType::Let),
        (vec!['r', 'e', 't', 'u', 'r', 'n'], TokenType::Return),
        (vec!['s', 't', 'r', 'u', 'c', 't'], TokenType::Struct),
        (vec!['e', 'n', 'u', 'm'], TokenType::Enum),
        (vec!['e', 'x', 't', 'e', 'n', 'd'], TokenType::Extend),
        (vec!['i', 'n', 't', 'e', 'r', 'f', 'a', 'c', 'e'], TokenType::Interface),
        (vec!['m', 'a', 't', 'c', 'h'], TokenType::Match),
        (vec!['i', 'f'], TokenType::If),
        (vec!['e', 'l', 's', 'e'], TokenType::Else),
        (vec!['w', 'h', 'i', 'l', 'e'], TokenType::While),
        (vec!['f', 'o', 'r'], TokenType::For),
        (vec!['i', 'n'], TokenType::In),
        (vec!['l', 'o', 'o', 'p'], TokenType::Loop),
        (vec!['b', 'r', 'e', 'a', 'k'], TokenType::Break),
        (vec!['c', 'o', 'n', 't', 'i', 'n', 'u', 'e'], TokenType::Continue),
        (vec!['d', 'e', 'f', 'e', 'r'], TokenType::Defer),
        (vec!['r', 'e', 'g', 'i', 'o', 'n'], TokenType::Region),
        (vec!['u', 's', 'e'], TokenType::Use),
        (vec!['p', 'u', 'b', 'l', 'i', 'c'], TokenType::Public),
        (vec!['a', 's', 'y', 'n', 'c'], TokenType::Async),
        (vec!['t', 'r', 'u', 'e'], TokenType::True),
        (vec!['f', 'a', 'l', 's', 'e'], TokenType::False),
        (vec!['o', 'r'], TokenType::Or),
        (vec!['a', 's'], TokenType::As),
        (vec!['s', 'e', 'l', 'f'], TokenType::SelfKw),
        (vec!['m', 'u', 't'], TokenType::Mut),
        (vec!['m', 'o', 'v', 'e'], TokenType::Move),
    ];
    assert(keyword_models(res@) =~= keyword_table());
    res
}

/// The keyword table as mathematical values.
pub open spec fn keyword_models(kw: Seq<(Vec<char>, TokenType)>) -> Seq<(Seq<char>, TokenType)> {
    kw.map_values(|e: (Vec<char>, TokenType)| (e.0@, e.1))
}

/// The values of a sequence of messages.
pub open spec fn message_models(ms: Seq<String>) -> Seq<Seq<char>> {
    ms.map_values(|m: String| m@)
}

/// Whether the last of `tokens` is a semicolon.
pub open spec fn ends_in_semicolon(tokens: Seq<TokenModel>) -> bool {
    tokens.len() > 0 && tokens.last().kind == TokenType::Semicolon
}

/// The token that closes every scan.
pub open spec fn eof_token(line: nat) -> TokenModel {
    TokenModel { kind: TokenType::Eof, lexeme: seq![], literal: None, line: line as int }
}

/// An error found while scanning, with what its message quotes.
pub enum ScanError {
    Unexpected(String),
    LonePipe,
    Unrecognized(char),
    UnterminatedString,
    UnterminatedFString,
    UnterminatedChar,
    UnknownEscape(char),
    MultiChar,
    InvalidInteger(String),
}

impl View for ScanError {
    type V = ScanErrorKind;

    open spec fn view(&self) -> ScanErrorKind {
        match self {
            ScanError::Unexpected(s) => ScanErrorKind::Unexpected(s@),
            ScanError::LonePipe => ScanErrorKind::LonePipe,
            ScanError::Unrecognized(c) => ScanErrorKind::Unrecognized(*c),
            ScanError::UnterminatedString => ScanErrorKind::UnterminatedString,
            ScanError::UnterminatedFString => ScanErrorKind::UnterminatedFString,
            ScanError::UnterminatedChar => ScanErrorKind::UnterminatedChar,
            ScanError::UnknownEscape(c) => ScanErrorKind::UnknownEscape(*c),
            ScanError::MultiChar => ScanErrorKind::MultiChar,
            ScanError::InvalidInteger(s) => ScanErrorKind::InvalidInteger(s@),
        }
    }
}

/// The message for `err` found on `line`.
fn render(err: &ScanError, line: usize) -> (res: String)
    ensures
        res@ == message(err@, line as nat),
{
    let mut m = String::new();
    m.append("Line ");
    push_decimal(&mut m, line);
    match err {
        ScanError::Unexpected(run) => {
            m.append(": unexpected \"");
            m.append(run.as_str());
            m.append("\"");
        },
        ScanError::LonePipe => {
            m.append(": unexpected '|', did you mean '||'?");
        },
        ScanError::Unrecognized(c) => {
            m.append(": unrecognized character '");
            push_char(&mut m, *c);
            m.append("'");
        },
        ScanError::UnterminatedString => {
            m.append(": unterminated string");
        },
        ScanError::UnterminatedFString => {
            m.append(": unterminated format string");
        },
        ScanError::UnterminatedChar => {
            m.append(": unterminated char literal");
        },
        ScanError::UnknownEscape(c) => {
            m.append(": unknown escape '\\");
            push_char(&mut m, *c);
            m.append("'");
        },
        ScanError::MultiChar => {
            m.append(": multi-char literal is not allowed");
        },
        ScanError::InvalidInteger(text) => {
            m.append(": invalid integer '");
            m.append(text.as_str());
            m.append("'");
        },
    }
    assert(m@ =~= message(err@, line as nat));
    m
}

/// Scans source text into tokens.
pub struct Scanner {
    source: Vec<char>,
    pub tokens: Vec<Token>,
    start: usize,
    current: usize,
    line: usize,
    keywords: Vec<(Vec<char>, TokenType)>,
}

impl Scanner {
    /// The characters of the source text.
    pub closed spec fn source_chars(&self) -> Seq<char> {
        self.source@
    }

    /// The index of the next character to read.
    pub closed spec fn position(&self) -> int {
        self.current as int
    }

    /// The values of the tokens added so far.
    pub closed spec fn token_list(&self) -> Seq<TokenModel> {
        token_models(self.tokens@)
    }

    /// The tokens added so far.
    pub fn tokens(&self) -> (res: &Vec<Token>)
        ensures
            token_models(res@) == self.token_list(),
    {
        &self.tokens
    }

    /// The line the scanner stands on.
    pub closed spec fn line_no(&self) -> nat {
        self.line as nat
    }

    /// The scanner's fields agree with one another.
    pub closed spec fn wf(&self) -> bool {
        &&& self.source@.len() < usize::MAX
        &&& self.start <= self.current <= self.source@.len()
        &&& 1 <= self.line <= self.current + 1
        &&& keyword_models(self.keywords@) == keyword_table()
    }

    /// The fields that a step of the scanner does not change.
    closed spec fn same_text(&self, other: &Scanner) -> bool {
        &&& self.source == other.source
        &&& self.keywords == other.keywords
        &&& self.start == other.start
    }

    /// After a step that began at `before`'s token start, the scanner holds
    /// what the model step `st` says, and `res` reports its error.
    closed spec fn stepped(&self, before: &Scanner, st: Lexed, res: Result<(), String>) -> bool {
        &&& self.same_text(before)
        &&& self.current == st.end
        &&& self.line == st.line
        &&& token_models(self.tokens@) == token_models(before.tokens@) + option_seq(st.token)
        &&& match res {
            Ok(_) => st.error is None,
            Err(m) => error_message(st) == Some(m@),
        }
    }

    /// Reads up to the closing quote of a string from `from` on, counting the
    /// line breaks it passes.
    fn skip_to_quote(&mut self, from: usize)
        requires
            old(self).wf(),
            old(self).current == from,
        ensures
            final(self).wf(),
            final(self).same_text(old(self)),
            final(self).tokens == old(self).tokens,
            final(self).current == scan_while(old(self).source@, from as int, not_quote()),
            from <= final(self).current <= old(self).source@.len(),
            final(self).line == old(self).line + newlines(
                old(self).source@.subrange(from as int, final(self).current as int),
            ),
    {
        let ghost src = self.source@;
        let ghost line0 = self.line;
        let ghost before = *self;
        while self.peek() != '"' && !self.is_at_end()
            invariant
                self.wf(),
                self.same_text(&before),
                self.tokens == before.tokens,
                self.source@ == src,
                from <= self.current <= src.len(),
                forall|k: int| from <= k < self.current ==> #[trigger] not_quote()(src[k]),
                self.line == line0 + newlines(src.subrange(from as int, self.current as int)),
            decreases src.len() - self.current,
        {
            proof {
                lemma_newlines_extend(src, from as int, self.current as int);
            }
            if self.peek() == '\n' {
                self.line = self.line + 1;
            }
            self.advance();
        }
        proof {
            lemma_scan_while_exact(src, from as int, self.current as int, not_quote());
        }
    }

    /// A string literal; the opening quote has been read.
    fn string(&mut self) -> (res: Result<(), String>)
        requires
            old(self).wf(),
            old(self).current == old(self).start + 1,
            old(self).source@[old(self).start as int] == '"',
        ensures
            final(self).wf(),
            final(self).stepped(
                old(self),
                scan_string(old(self).source@, old(self).start as int, old(self).line as nat),
                res,
            ),
    {
        self.skip_to_quote(self.current);
        if self.is_at_end() {
            return Err(render(&ScanError::UnterminatedString, self.line));
        }
        self.advance();
        let value = chars_to_string(&self.source, self.start + 1, self.current - 1);
        self.add_token_lit(TokenType::StringLit, Some(LiteralValue::StringValue(value)));
        Ok(())
    }

    /// A format string; the `f` and the opening quote have been read. Where
    /// it is unterminated, it reports so and adds no token.
    fn fstring(&mut self) -> (res: Result<(), String>)
        requires
            old(self).wf(),
            old(self).current == old(self).start + 2,
            old(self).source@[old(self).start as int] == 'f',
            old(self).source@[old(self).start + 1] == '"',
        ensures
            ({
                let st = scan_fstring(
                    old(self).source@,
                    old(self).start as int,
                    old(self).line as nat,
                );
                &&& final(self).wf()
                &&& final(self).stepped(old(self), st, Ok(()))
                &&& match res {
                    Ok(_) => st.token is Some,
                    Err(m) => st.token is None && m@ == message(
                        ScanErrorKind::UnterminatedFString,
                        st.line,
                    ),
                }
            }),
    {
        self.skip_to_quote(self.current);
        if self.is_at_end() {
            return Err(render(&ScanError::UnterminatedFString, self.line));
        }
        self.advance();
        let value = chars_to_string(&self.source, self.start + 2, self.current - 1);
        self.add_token_lit(TokenType::FStringLit, Some(LiteralValue::StringValue(value)));
        Ok(())
    }

    /// A character literal; the opening quote has been read.
    fn char_literal(&mut self) -> (res: Result<(), String>)
        requires
            old(self).wf(),
            old(self).current == old(self).start + 1,
            old(self).source@[old(self).start as int] == '\'',
            !scan_char(old(self).source@, old(self).start as int, old(self).line as nat).panics,
        ensures
            final(self).wf(),
            final(self).stepped(
                old(self),
                scan_char(old(self).source@, old(self).start as int, old(self).line as nat),
                res,
            ),
    {
        if self.is_at_end() {
            return Err(render(&ScanError::UnterminatedChar, self.line));
        }
        let ch = if self.peek() == '\\' {
            self.advance();
            let e = self.advance();
            match e {
                'n' => '\n',
                't' => '\t',
                'r' => '\r',
                '0' => '\0',
                '\\' => '\\',
                '\'' => '\'',
                c => {
                    return Err(render(&ScanError::UnknownEscape(c), self.line));
                },
            }
        } else {
            self.advance()
        };
        if self.is_at_end() || self.peek() != '\'' {
            if !self.is_at_end() && self.peek() != '\'' {
                return Err(render(&ScanError::MultiChar, self.line));
            }
            return Err(render(&ScanError::UnterminatedChar, self.line));
        }
        self.advance();
        self.add_token_lit(TokenType::CharLit, Some(LiteralValue::CharValue(ch)));
        Ok(())
    }

    /// Reads the digits from the scanner's position on.
    fn skip_digits(&mut self)
        requires
            old(self).wf(),
        ensures
            final(self).wf(),
            final(self).same_text(old(self)),
            final(self).tokens == old(self).tokens,
            final(self).line == old(self).line,
            final(self).current == scan_while(
                old(self).source@,
                old(self).current as int,
                digit_chars(),
            ),
            old(self).current <= final(self).current <= old(self).source@.len(),
            forall|k: int|
                old(self).current <= k < final(self).current ==> is_digit_char(
                    #[trigger] old(self).source@[k],
                ),
    {
        let ghost src = self.source@;
        let ghost from = self.current as int;
        let ghost before = *self;
        while is_digit(self.peek())
            invariant
                self.wf(),
                self.same_text(&before),
                self.tokens == before.tokens,
                self.line == before.line,
                self.source@ == src,
                from <= self.current <= src.len(),
                forall|k: int| from <= k < self.current ==> #[trigger] digit_chars()(src[k]),
            decreases src.len() - self.current,
        {
            self.advance();
        }
        proof {
            lemma_scan_while_exact(src, from, self.current as int, digit_chars());
            assert forall|k: int| from <= k < self.current implies is_digit_char(
                #[trigger] src[k],
            ) by {
                assert(digit_chars()(src[k]));
            }
        }
    }

    /// A number; its first digit has been read.
    fn number(&mut self) -> (res: Result<(), String>)
        requires
            old(self).wf(),
            old(self).current == old(self).start + 1,
            is_digit_char(old(self).source@[old(self).start as int]),
        ensures
            final(self).wf(),
            final(self).stepped(
                old(self),
                scan_number(old(self).source@, old(self).start as int, old(self).line as nat),
                res,
            ),
    {
        let ghost src = self.source@;
        let ghost s = self.start as int;
        self.skip_digits();
        let ghost d = self.current as int;
        let is_float = self.peek() == '.' && is_digit(self.peek_next());
        assert(is_float == has_fraction(src, d));
        if is_float {
            self.advance();
            self.skip_digits();
        }
        let ghost e = self.current as int;
        assert(all_digits(src.subrange(s, e)) || is_float) by {
            if !is_float {
                assert forall|i: int| 0 <= i < e - s implies is_digit_char(
                    #[trigger] src.subrange(s, e)[i],
                ) by {
                    assert(src.subrange(s, e)[i] == src[s + i]);
                }
            }
        }
        let text = chars_to_string(&self.source, self.start, self.current);
        if is_float {
            self.add_token_lit(TokenType::FloatLit, Some(LiteralValue::FloatValue(text)));
        } else {
            match parse_digits(&self.source, self.start, self.current) {
                Some(value) => {
                    self.add_token_lit(TokenType::IntLit, Some(LiteralValue::IntValue(value)));
                },
                None => {
                    return Err(render(&ScanError::InvalidInteger(text), self.line));
                },
            }
        }
        Ok(())
    }

    /// A keyword or an identifier, or a format string `f"..."`; the first
    /// character has been read. No error is reported: that of an
    /// unterminated format string is dropped.
    fn identifier(&mut self)
        requires
            old(self).wf(),
            old(self).current == old(self).start + 1,
        ensures
            final(self).wf(),
            final(self).stepped(
                old(self),
                scan_word(old(self).source@, old(self).start as int, old(self).line as nat),
                Ok(()),
            ),
    {
        let ghost src = self.source@;
        let ghost s = self.start as int;
        let ghost before = *self;
        while !self.is_at_end() && (is_alphanumeric(self.peek()) || self.peek() == '_')
            invariant
                self.wf(),
                self.same_text(&before),
                self.tokens == before.tokens,
                self.line == before.line,
                self.source@ == src,
                s + 1 <= self.current <= src.len(),
                forall|k: int|
                    s + 1 <= k < self.current <= src.len() ==> #[trigger] word_chars()(src[k]),
            decreases src.len() - self.current,
        {
            self.advance();
        }
        let ghost e = self.current as int;
        proof {
            lemma_scan_while_exact(src, s + 1, e, word_chars());
            if e - s == 1 && src[s] == 'f' {
                assert(src.subrange(s, e) =~= seq!['f']);
            }
            if src.subrange(s, e) == seq!['f'] {
                assert(src.subrange(s, e)[0] == src[s]);
            }
        }
        if self.current - self.start == 1 && self.source[self.start] == 'f' && self.peek() == '"' {
            self.advance();
            let _ = self.fstring();
            return;
        }
        let ghost text = src.subrange(s, e);
        proof {
            if text == seq!['f'] && peek_at(src, e) == '"' {
                assert(text.len() == 1);
                assert(text[0] == 'f');
                assert(src[s] == 'f');
            }
        }
        let n = self.keywords.len();
        let mut i: usize = 0;
        proof {
            assert(keyword_table().skip(0) == keyword_table());
        }
        while i < n
            invariant
                self.wf(),
                self.same_text(&before),
                self.tokens == before.tokens,
                self.line == before.line,
                self.source@ == src,
                self.current == e,
                self.start == s,
                before == *old(self),
                text == src.subrange(s, e),
                e == scan_while(src, s + 1, word_chars()),
                !(text == seq!['f'] && peek_at(src, e) == '"'),
                n == self.keywords@.len(),
                0 <= i <= n,
                lookup_keyword(keyword_table().skip(i as int), text) == lookup_keyword(
                    keyword_table(),
                    text,
                ),
            decreases n - i,
        {
            let ghost rest = keyword_table().skip(i as int);
            proof {
                assert(keyword_models(self.keywords@)[i as int] == (
                    self.keywords@[i as int].0@,
                    self.keywords@[i as int].1,
                ));
                assert(keyword_table().len() == n);
                assert(rest.len() > 0);
                assert(rest[0] == keyword_table()[i as int]);
                assert(rest.drop_first() =~= keyword_table().skip(i + 1));
                assert(lookup_keyword(rest, text) == if rest[0].0 == text {
                    Some(rest[0].1)
                } else {
                    lookup_keyword(rest.drop_first(), text)
                });
            }
            if chars_equal(&self.source, self.start, self.current, &self.keywords[i].0) {
                let kind = self.keywords[i].1;
                proof {
                    assert(lookup_keyword(keyword_table(), text) == Some(kind));
                }
                self.add_token(kind);
                return;
            }
            i = i + 1;
        }
        proof {
            assert(keyword_table().skip(n as int).len() == 0);
        }
        self.add_token(TokenType::Identifier);
    }

    /// Reads the rest of a run of semicolons.
    fn skip_semicolons(&mut self)
        requires
            old(self).wf(),
        ensures
            final(self).wf(),
            final(self).same_text(old(self)),
            final(self).tokens == old(self).tokens,
            final(self).line == old(self).line,
            final(self).current == scan_while(
                old(self).source@,
                old(self).current as int,
                semicolons(),
            ),
            old(self).current <= final(self).current <= old(self).source@.len(),
    {
        let ghost src = self.source@;
        let ghost from = self.current as int;
        let ghost before = *self;
        while self.peek() == ';'
            invariant
                self.wf(),
                self.same_text(&before),
                self.tokens == before.tokens,
                self.line == before.line,
                self.source@ == src,
                from <= self.current <= src.len(),
                forall|k: int| from <= k < self.current ==> #[trigger] semicolons()(src[k]),
            decreases src.len() - self.current,
        {
            self.advance();
        }
        proof {
            lemma_scan_while_exact(src, from, self.current as int, semicolons());
        }
    }

    /// Reads a `--` comment up to the end of its line.
    fn skip_comment(&mut self)
        requires
            old(self).wf(),
        ensures
            final(self).wf(),
            final(self).same_text(old(self)),
            final(self).tokens == old(self).tokens,
            final(self).line == old(self).line,
            final(self).current == scan_while(
                old(self).source@,
                old(self).current as int,
                not_newline(),
            ),
            old(self).current <= final(self).current <= old(self).source@.len(),
    {
        let ghost src = self.source@;
        let ghost from = self.current as int;
        let ghost before = *self;
        while self.peek() != '\n' && !self.is_at_end()
            invariant
                self.wf(),
                self.same_text(&before),
                self.tokens == before.tokens,
                self.line == before.line,
                self.source@ == src,
                from <= self.current <= src.len(),
                forall|k: int| from <= k < self.current ==> #[trigger] not_newline()(src[k]),
            decreases src.len() - self.current,
        {
            self.advance();
        }
        proof {
            lemma_scan_while_exact(src, from, self.current as int, not_newline());
        }
    }

    /// Reads one token, or skips blank space or a comment, or reports an
    /// error, from the scanner's position.
    fn scan_token(&mut self) -> (res: Result<(), String>)
        requires
            old(self).wf(),
            old(self).start == old(self).current,
            old(self).current < old(self).source@.len(),
            !scan_step(
                old(self).source@,
                old(self).current as int,
                old(self).line as nat,
                ends_in_semicolon(token_models(old(self).tokens@)),
            ).panics,
        ensures
            final(self).wf(),
            final(self).stepped(
                old(self),
                scan_step(
                    old(self).source@,
                    old(self).current as int,
                    old(self).line as nat,
                    ends_in_semicolon(token_models(old(self).tokens@)),
                ),
                res,
            ),
    {
        reveal(scan_step);
        let c = self.advance();
        match c {
            '(' => self.add_token(TokenType::LeftParen),
            ')' => self.add_token(TokenType::RightParen),
            '{' => self.add_token(TokenType::LeftBrace),
            '}' => self.add_token(TokenType::RightBrace),
            '[' => self.add_token(TokenType::LeftBracket),
            ']' => self.add_token(TokenType::RightBracket),
            ',' => self.add_token(TokenType::Comma),
            '?' => self.add_token(TokenType::Question),
            '_' => {
                if !self.is_at_end() && (is_alphanumeric(self.peek()) || self.peek() == '_') {
                    self.identifier();
                } else {
                    self.add_token(TokenType::Underscore);
                }
            },
            ';' => {
                let n = self.tokens.len();
                if n > 0 && self.tokens[n - 1].token_type == TokenType::Semicolon {
                    self.skip_semicolons();
                    let run_start = if self.start > 0 && self.source[self.start - 1] == ';' {
                        self.start - 1
                    } else {
                        self.start
                    };
                    let unexpected = chars_to_string(&self.source, run_start, self.current);
                    return Err(render(&ScanError::Unexpected(unexpected), self.line));
                }
                self.add_token(TokenType::Semicolon);
            },
            '+' => {
                if self.char_match('=') {
                    self.add_token(TokenType::PlusEqual);
                } else {
                    self.add_token(TokenType::Plus);
                }
            },
            '*' => {
                if self.char_match('=') {
                    self.add_token(TokenType::StarEqual);
                } else {
                    self.add_token(TokenType::Star);
                }
            },
            '%' => self.add_token(TokenType::Percent),
            '-' => {
                if self.char_match('-') {
                    self.skip_comment();
                } else if self.char_match('>') {
                    self.add_token(TokenType::Arrow);
                } else if self.char_match('=') {
                    self.add_token(TokenType::MinusEqual);
                } else {
                    self.add_token(TokenType::Minus);
                }
            },
            '/' => {
                if self.char_match('=') {
                    self.add_token(TokenType::SlashEqual);
                } else {
                    self.add_token(TokenType::Slash);
                }
            },
            '.' => {
                if self.char_match('.') {
                    self.add_token(TokenType::DotDot);
                } else {
                    self.add_token(TokenType::Dot);
                }
            },
            ':' => {
                if self.char_match(':') {
                    self.add_token(TokenType::ColonColon);
                } else {
                    self.add_token(TokenType::Colon);
                }
            },
            '!' => {
                if self.char_match('=') {
                    self.add_token(TokenType::BangEqual);
                } else {
                    self.add_token(TokenType::Bang);
                }
            },
            '=' => {
                if self.char_match('=') {
                    self.add_token(TokenType::EqualEqual);
                } else if self.char_match('>') {
                    self.add_token(TokenType::FatArrow);
                } else {
                    self.add_token(TokenType::Equal);
                }
            },
            '<' => {
                if self.char_match('=') {
                    self.add_token(TokenType::LessEqual);
                } else {
                    self.add_token(TokenType::Less);
                }
            },
            '>' => {
                if self.char_match('=') {
                    self.add_token(TokenType::GreaterEqual);
                } else {
                    self.add_token(TokenType::Greater);
                }
            },
            '&' => {
                if self.char_match('&') {
                    self.add_token(TokenType::AmpAmp);
                } else {
                    self.add_token(TokenType::Ampersand);
                }
            },
            '|' => {
                if self.char_match('|') {
                    self.add_token(TokenType::PipePipe);
                } else {
                    return Err(render(&ScanError::LonePipe, self.line));
                }
            },
            ' ' | '\r' | '\t' => {},
            '\n' => {
                self.line = self.line + 1;
            },
            '"' => {
                return self.string();
            },
            '\'' => {
                return self.char_literal();
            },
            c => {
                if is_digit(c) {
                    return self.number();
                } else if is_alphabetic(c) || c == '_' {
                    self.identifier();
                } else {
                    return Err(render(&ScanError::Unrecognized(c), self.line));
                }
            },
        }
        Ok(())
    }

    /// Scans the rest of the source, adds the tokens read and a closing `Eof`
    /// token, and returns all tokens added so far, or, where any error was
    /// found, the messages of all errors, each followed by a line break.
    pub fn scan_tokens(&mut self) -> (res: Result<Vec<Token>, String>)
        requires
            old(self).wf(),
            !scan_run(
                old(self).source_chars(),
                old(self).position(),
                old(self).line_no(),
                ends_in_semicolon(old(self).token_list()),
            ).panics,
        ensures
            ({
                let run = scan_run(
                    old(self).source_chars(),
                    old(self).position(),
                    old(self).line_no(),
                    ends_in_semicolon(old(self).token_list()),
                );
                &&& final(self).wf()
                &&& final(self).source_chars() == old(self).source_chars()
                &&& final(self).position() == old(self).source_chars().len()
                &&& final(self).line_no() == run.line
                &&& final(self).token_list() == old(self).token_list() + run.tokens + seq![
                    eof_token(run.line),
                ]
                &&& match res {
                    Ok(ts) => run.errors.len() == 0 && token_models(ts@) == final(self).token_list(),
                    Err(m) => run.errors.len() > 0 && m@ == join_errors(run.errors),
                }
            }),
    {
        let ghost src = self.source@;
        let ghost run = scan_run(
            src,
            self.current as int,
            self.line as nat,
            ends_in_semicolon(token_models(self.tokens@)),
        );
        let ghost tokens0 = token_models(self.tokens@);
        let mut errors: Vec<String> = Vec::new();
        while !self.is_at_end()
            invariant
                self.wf(),
                self.source@ == src,
                ({
                    let r = scan_run(
                        src,
                        self.current as int,
                        self.line as nat,
                        ends_in_semicolon(token_models(self.tokens@)),
                    );
                    &&& !r.panics
                    &&& r.line == run.line
                    &&& token_models(self.tokens@) + r.tokens == tokens0 + run.tokens
                    &&& message_models(errors@) + r.errors == run.errors
                }),
            decreases src.len() - self.current,
        {
            self.start = self.current;
            let ghost before = *self;
            let ghost semi = ends_in_semicolon(token_models(self.tokens@));
            let ghost st = scan_step(src, self.current as int, self.line as nat, semi);
            let ghost errors_before = message_models(errors@);
            let ghost r = scan_run(src, self.current as int, self.line as nat, semi);
            let ghost rest = scan_run(src, st.end, st.line, semi_after(st, semi));
            proof {
                lemma_step_bounds(src, self.current as int, self.line as nat, semi);
                assert(!st.panics);
                assert(r.tokens == option_seq(st.token) + rest.tokens);
            }
            match self.scan_token() {
                Ok(_) => {},
                Err(msg) => {
                    errors.push(msg);
                },
            }
            proof {
                let new_tokens = token_models(self.tokens@);
                assert(new_tokens == token_models(before.tokens@) + option_seq(st.token));
                if st.token is Some {
                    assert(new_tokens.last() == st.token->0);
                } else {
                    assert(new_tokens =~= token_models(before.tokens@));
                }
                assert(ends_in_semicolon(new_tokens) == semi_after(st, semi));
                assert(new_tokens + rest.tokens =~= token_models(before.tokens@) + r.tokens);
                assert(message_models(errors@) =~= errors_before + option_seq(error_message(st)));
                assert(message_models(errors@) + rest.errors =~= errors_before + r.errors);
            }
        }
        proof {
            assert(token_models(self.tokens@) =~= tokens0 + run.tokens);
            assert(message_models(errors@) =~= run.errors);
        }
        let ghost before_eof = self.tokens@;
        let eof = Token {
            token_type: TokenType::Eof,
            lexeme: String::new(),
            literal: None,
            line_number: self.line,
        };
        self.tokens.push(eof);
        proof {
            assert(token_models(self.tokens@) =~= token_models(before_eof) + seq![
                eof_token(run.line),
            ]);
        }
        if errors.len() > 0 {
            let mut joined = String::new();
            let n = errors.len();
            for i in 0..n
                invariant
                    n == errors@.len(),
                    message_models(errors@) == run.errors,
                    joined@ == join_errors(run.errors.take(i as int)),
            {
                let ghost prev = joined@;
                joined.append(errors[i].as_str());
                push_char(&mut joined, '\n');
                proof {
                    assert(run.errors.take(i + 1).drop_last() =~= run.errors.take(i as int));
                    assert(run.errors[i as int] == errors@[i as int]@);
                }
            }
            proof {
                assert(run.errors.take(n as int) =~= run.errors);
            }
            return Err(joined);
        }
        Ok(duplicate_tokens(&self.tokens))
    }

    /// Whether the next step would index past the end of the source: the
    /// scanner stands on a quote, and a backslash is the last character.
    fn step_would_panic(&self) -> (res: bool)
        requires
            self.wf(),
            self.current < self.source@.len(),
        ensures
            res == scan_step(
                self.source@,
                self.current as int,
                self.line as nat,
                ends_in_semicolon(token_models(self.tokens@)),
            ).panics,
    {
        proof {
            lemma_step_panics(
                self.source@,
                self.current as int,
                self.line as nat,
                ends_in_semicolon(token_models(self.tokens@)),
            );
        }
        self.current + 2 == self.source.len() && self.source[self.current] == '\''
            && self.source[self.current + 1] == '\\'
    }

    /// `scan_tokens` where it runs to the end of the source; `None`, with the
    /// scanner unchanged, where the scan would index past the end of the
    /// source (a character literal whose backslash is the last character).
    pub fn scan_tokens_checked(&mut self) -> (res: Option<Result<Vec<Token>, String>>)
        requires
            old(self).wf(),
        ensures
            ({
                let run = scan_run(
                    old(self).source_chars(),
                    old(self).position(),
                    old(self).line_no(),
                    ends_in_semicolon(old(self).token_list()),
                );
                &&& final(self).wf()
                &&& res is None <==> run.panics
                &&& res is None ==> *final(self) == *old(self)
                &&& res matches Some(r) ==> {
                    &&& final(self).source_chars() == old(self).source_chars()
                    &&& final(self).position() == old(self).source_chars().len()
                    &&& final(self).line_no() == run.line
                    &&& final(self).token_list() == old(self).token_list() + run.tokens
                        + seq![eof_token(run.line)]
                    &&& match r {
                        Ok(ts) => run.errors.len() == 0 && token_models(ts@) == final(self).token_list(),
                        Err(m) => run.errors.len() > 0 && m@ == join_errors(run.errors),
                    }
                }
            }),
    {
        let ghost semi0 = ends_in_semicolon(token_models(self.tokens@));
        let ghost run = scan_run(self.source@, self.current as int, self.line as nat, semi0);
        let n = self.source.len();
        if !(n >= 2 && self.source[n - 2] == '\'' && self.source[n - 1] == '\\') {
            // Only a source ending in a quote and a backslash can make a scan panic.
            proof {
                law_panics_only_on_dangling_escape(
                    self.source@,
                    self.current as int,
                    self.line as nat,
                    semi0,
                );
            }
            return Some(self.scan_tokens());
        }
        // Otherwise a dry run on a copy tells whether the scan reaches the end.
        let source = self.source.clone();
        proof {
            assert(source@ =~= self.source@);
        }
        let mut probe = Scanner {
            source,
            tokens: duplicate_tokens(&self.tokens),
            start: self.current,
            current: self.current,
            line: self.line,
            keywords: get_keywords(),
        };
        let ghost src = probe.source@;
        while !probe.is_at_end()
            invariant
                probe.wf(),
                probe.source@ == src,
                src == old(self).source@,
                *self == *old(self),
                self.wf(),
                run == scan_run(src, old(self).current as int, old(self).line as nat, semi0),
                semi0 == ends_in_semicolon(token_models(old(self).tokens@)),
                scan_run(
                    src,
                    probe.current as int,
                    probe.line as nat,
                    ends_in_semicolon(token_models(probe.tokens@)),
                ).panics == run.panics,
            decreases src.len() - probe.current,
        {
            probe.start = probe.current;
            let ghost semi = ends_in_semicolon(token_models(probe.tokens@));
            let ghost st = scan_step(src, probe.current as int, probe.line as nat, semi);
            proof {
                lemma_run_unfold(src, probe.current as int, probe.line as nat, semi);
                lemma_step_bounds(src, probe.current as int, probe.line as nat, semi);
            }
            if probe.step_would_panic() {
                return None;
            }
            let ghost before = probe;
            let _ = probe.scan_token();
            proof {
                let new_tokens = token_models(probe.tokens@);
                if st.token is Some {
                    assert(new_tokens.last() == st.token->0);
                } else {
                    assert(new_tokens =~= token_models(before.tokens@));
                }
                assert(ends_in_semicolon(new_tokens) == semi_after(st, semi));
            }
        }
        Some(self.scan_tokens())
    }

    /// A scanner at the start of `source`, with no tokens yet.
    pub fn new(source: &str) -> (res: Self)
        requires
            source@.len() < usize::MAX,
        ensures
            res.wf(),
            res.source_chars() == source@,
            res.position() == 0,
            res.line_no() == 1,
            res.token_list().len() == 0,
    {
        let mut chars: Vec<char> = Vec::new();
        proof {
            broadcast use vstd::string::axiom_spec_iter;
        }
        for c in it: source.chars()
            invariant
                it.seq() == source@,
                chars@ == it.seq().take(it.index() as int),
            ensures
                chars@ == source@,
        {
            chars.push(c);
            assert(it.seq().take(it.index() + 1) == it.seq().take(it.index() as int).push(c));
        }
        Scanner {
            source: chars,
            tokens: Vec::new(),
            start: 0,
            current: 0,
            line: 1,
            keywords: get_keywords(),
        }
    }

    fn is_at_end(&self) -> (res: bool)
        ensures
            res == (self.current >= self.source@.len()),
    {
        self.current >= self.source.len()
    }

    fn peek(&self) -> (res: char)
        ensures
            res == peek_at(self.source@, self.current as int),
    {
        if self.is_at_end() {
            '\0'
        } else {
            self.source[self.current]
        }
    }

    fn peek_next(&self) -> (res: char)
        requires
            self.current < usize::MAX,
        ensures
            res == peek_at(self.source@, self.current + 1),
    {
        if self.current + 1 >= self.source.len() {
            '\0'
        } else {
            self.source[self.current + 1]
        }
    }

    fn advance(&mut self) -> (res: char)
        requires
            old(self).current < old(self).source@.len() < usize::MAX,
        ensures
            res == old(self).source@[old(self).current as int],
            final(self).current == old(self).current + 1,
            final(self).same_text(old(self)),
            final(self).line == old(self).line,
            final(self).tokens == old(self).tokens,
    {
        let c = self.source[self.current];
        self.current = self.current + 1;
        c
    }

    fn char_match(&mut self, expected: char) -> (res: bool)
        requires
            old(self).current <= old(self).source@.len() < usize::MAX,
        ensures
            res == next_is(old(self).source@, old(self).current as int, expected),
            final(self).current == old(self).current + if res {
                1int
            } else {
                0int
            },
            final(self).same_text(old(self)),
            final(self).line == old(self).line,
            final(self).tokens == old(self).tokens,
    {
        if self.is_at_end() || self.source[self.current] != expected {
            return false;
        }
        self.current = self.current + 1;
        true
    }

    fn add_token(&mut self, token_type: TokenType)
        requires
            old(self).start <= old(self).current <= old(self).source@.len(),
        ensures
            token_models(final(self).tokens@) == token_models(old(self).tokens@) + seq![
                TokenModel {
                    kind: token_type,
                    lexeme: old(self).source@.subrange(
                        old(self).start as int,
                        old(self).current as int,
                    ),
                    literal: None,
                    line: old(self).line as int,
                },
            ],
            final(self).same_text(old(self)),
            final(self).current == old(self).current,
            final(self).line == old(self).line,
    {
        self.add_token_lit(token_type, None);
    }

    fn add_token_lit(&mut self, token_type: TokenType, literal: Option<LiteralValue>)
        requires
            old(self).start <= old(self).current <= old(self).source@.len(),
        ensures
            token_models(final(self).tokens@) == token_models(old(self).tokens@) + seq![
                TokenModel {
                    kind: token_type,
                    lexeme: old(self).source@.subrange(
                        old(self).start as int,
                        old(self).current as int,
                    ),
                    literal: literal_model(literal),
                    line: old(self).line as int,
                },
            ],
            final(self).same_text(old(self)),
            final(self).current == old(self).current,
            final(self).line == old(self).line,
    {
        let text = chars_to_string(&self.source, self.start, self.current);
        let token = Token { token_type, lexeme: text, literal, line_number: self.line };
        let ghost before = self.tokens@;
        self.tokens.push(token);
        assert(token_models(self.tokens@) =~= token_models(before) + seq![token@]);
    }
}

} // verus!
