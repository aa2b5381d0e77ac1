//! The mathematical model of scanning: what one step of the scanner reads
//! from a given position, and what a whole run of steps produces.
use vstd::prelude::*;
use crate::ast::text::{decimal, digits_value, is_digit_char, is_letter, is_letter_or_digit};
use crate::ast::tokens::{LiteralModel, TokenModel, TokenType};

verus! {

/// The keywords of the language, each with the kind of token it is read as.
pub open spec fn keyword_table() -> Seq<(Seq<char>, TokenType)> {
    seq![
        (seq!['f', 'n'], TokenType::Fn),
        (seq!['l', 'e', 't'], TokenType::Let),
        (seq!['r', 'e', 't', 'u', 'r', 'n'], TokenType::Return),
        (seq!['s', 't', 'r', 'u', 'c', 't'], TokenType::Struct),
        (seq!['e', 'n', 'u', 'm'], TokenType::Enum),
        (seq!['e', 'x', 't', 'e', 'n', 'd'], TokenType::Extend),
        (seq!['i', 'n', 't', 'e', 'r', 'f', 'a', 'c', 'e'], TokenType::Interface),
        (seq!['m', 'a', 't', 'c', 'h'], TokenType::Match),
        (seq!['i', 'f'], TokenType::If),
        (seq!['e', 'l', 's', 'e'], TokenType::Else),
        (seq!['w', 'h', 'i', 'l', 'e'], TokenType::While),
        (seq!['f', 'o', 'r'], TokenType::For),
        (seq!['i', 'n'], TokenType::In),
        (seq!['l', 'o', 'o', 'p'], TokenType::Loop),
        (seq!['b', 'r', 'e', 'a', 'k'], TokenType::Break),
        (seq!['c', 'o', 'n', 't', 'i', 'n', 'u', 'e'], TokenType::Continue),
        (seq!['d', 'e', 'f', 'e', 'r'], TokenType::Defer),
        (seq!['r', 'e', 'g', 'i', 'o', 'n'], TokenType::Region),
        (seq!['u', 's', 'e'], TokenType::Use),
        (seq!['p', 'u', 'b', 'l', 'i', 'c'], TokenType::Public),
        (seq!['a', 's', 'y', 'n', 'c'], TokenType::Async),
        (seq!['t', 'r', 'u', 'e'], TokenType::True),
        (seq!['f', 'a', 'l', 's', 'e'], TokenType::False),
        (seq!['o', 'r'], TokenType::Or),
        (seq!['a', 's'], TokenType::As),
        (seq!['s', 'e', 'l', 'f'], TokenType::SelfKw),
        (seq!['m', 'u', 't'], TokenType::Mut),
        (seq!['m', 'o', 'v', 'e'], TokenType::Move),
    ]
}

/// The kind that the first entry of `table` with key `text` gives, if any.
pub open spec fn lookup_keyword(table: Seq<(Seq<char>, TokenType)>, text: Seq<char>) -> Option<
    TokenType,
>
    decreases table.len(),
{
    if table.len() == 0 {
        None
    } else if table[0].0 == text {
        Some(table[0].1)
    } else {
        lookup_keyword(table.drop_first(), text)
    }
}

/// The keyword kind of `text`, if `text` is a keyword.
pub open spec fn keyword_of(text: Seq<char>) -> Option<TokenType> {
    lookup_keyword(keyword_table(), text)
}

/// The kind of an identifier-shaped word: its keyword kind, or `Identifier`.
pub open spec fn word_kind(text: Seq<char>) -> TokenType {
    match keyword_of(text) {
        Some(k) => k,
        None => TokenType::Identifier,
    }
}

/// The character at `i`, or NUL past the end (what the scanner's `peek` sees).
pub open spec fn peek_at(src: Seq<char>, i: int) -> char {
    if 0 <= i < src.len() {
        src[i]
    } else {
        '\0'
    }
}

/// The character at `i` exists and is `c`.
pub open spec fn next_is(src: Seq<char>, i: int, c: char) -> bool {
    0 <= i < src.len() && src[i] == c
}

/// The first index from `i` on at which `keep` fails, or the end of `src`.
pub open spec fn scan_while(src: Seq<char>, i: int, keep: spec_fn(char) -> bool) -> int
    decreases src.len() - i,
{
    if i < 0 || i >= src.len() || !keep(src[i]) {
        i
    } else {
        scan_while(src, i + 1, keep)
    }
}

/// A character that continues an identifier.
pub open spec fn is_word_char(c: char) -> bool {
    is_letter_or_digit(c) || c == '_'
}

pub open spec fn word_chars() -> spec_fn(char) -> bool {
    |c: char| is_word_char(c)
}

pub open spec fn digit_chars() -> spec_fn(char) -> bool {
    |c: char| is_digit_char(c)
}

pub open spec fn not_quote() -> spec_fn(char) -> bool {
    |c: char| c != '"'
}

pub open spec fn not_newline() -> spec_fn(char) -> bool {
    |c: char| c != '\n'
}

pub open spec fn semicolons() -> spec_fn(char) -> bool {
    |c: char| c == ';'
}

/// The number of line breaks in `s`.
pub open spec fn newlines(s: Seq<char>) -> nat
    decreases s.len(),
{
    if s.len() == 0 {
        0
    } else {
        newlines(s.drop_last()) + if s.last() == '\n' {
            1nat
        } else {
            0nat
        }
    }
}

/// The character that an escape `\c` in a character literal stands for.
pub open spec fn escape_of(c: char) -> Option<char> {
    if c == 'n' {
        Some('\n')
    } else if c == 't' {
        Some('\t')
    } else if c == 'r' {
        Some('\r')
    } else if c == '0' {
        Some('\0')
    } else if c == '\\' {
        Some('\\')
    } else if c == '\'' {
        Some('\'')
    } else {
        None
    }
}

/// What the scanner can report of a token it cannot read.
pub enum ScanErrorKind {
    /// A semicolon (or a run of them) right after a semicolon token.
    Unexpected(Seq<char>),
    /// A single `|`.
    LonePipe,
    Unrecognized(char),
    UnterminatedString,
    UnterminatedFString,
    UnterminatedChar,
    UnknownEscape(char),
    MultiChar,
    InvalidInteger(Seq<char>),
}

/// The message reported for an error found on `line`.
pub open spec fn message(kind: ScanErrorKind, line: nat) -> Seq<char> {
    "Line "@ + decimal(line) + match kind {
        ScanErrorKind::Unexpected(run) => ": unexpected \""@ + run + "\""@,
        ScanErrorKind::LonePipe => ": unexpected '|', did you mean '||'?"@,
        ScanErrorKind::Unrecognized(c) => ": unrecognized character '"@ + seq![c] + "'"@,
        ScanErrorKind::UnterminatedString => ": unterminated string"@,
        ScanErrorKind::UnterminatedFString => ": unterminated format string"@,
        ScanErrorKind::UnterminatedChar => ": unterminated char literal"@,
        ScanErrorKind::UnknownEscape(c) => ": unknown escape '\\"@ + seq![c] + "'"@,
        ScanErrorKind::MultiChar => ": multi-char literal is not allowed"@,
        ScanErrorKind::InvalidInteger(text) => ": invalid integer '"@ + text + "'"@,
    }
}

/// The outcome of one step of the scanner: where it stops, the line it is
/// then on, the token it adds, the error it reports, and whether it would
/// index past the end of the source.
pub struct Lexed {
    pub end: int,
    pub line: nat,
    pub token: Option<TokenModel>,
    pub error: Option<ScanErrorKind>,
    pub panics: bool,
}

/// A token read from `src[s..e]`.
pub open spec fn token_at(
    src: Seq<char>,
    s: int,
    e: int,
    line: nat,
    kind: TokenType,
    literal: Option<LiteralModel>,
) -> Lexed {
    Lexed {
        end: e,
        line,
        token: Some(
            TokenModel { kind, lexeme: src.subrange(s, e), literal, line: line as int },
        ),
        error: None,
        panics: false,
    }
}

/// A token without a literal value read from `src[s..e]`.
pub open spec fn plain(src: Seq<char>, s: int, e: int, line: nat, kind: TokenType) -> Lexed {
    token_at(src, s, e, line, kind, None)
}

/// Text skipped without a token.
pub open spec fn skipped(e: int, line: nat) -> Lexed {
    Lexed { end: e, line, token: None, error: None, panics: false }
}

/// An error reported after reading up to `e`.
pub open spec fn failed(e: int, line: nat, kind: ScanErrorKind) -> Lexed {
    Lexed { end: e, line, token: None, error: Some(kind), panics: false }
}

/// A one-character token, or a two-character one where `second` follows.
pub open spec fn one_or_two(
    src: Seq<char>,
    s: int,
    line: nat,
    second: char,
    two: TokenType,
    one: TokenType,
) -> Lexed {
    if next_is(src, s + 1, second) {
        plain(src, s, s + 2, line, two)
    } else {
        plain(src, s, s + 1, line, one)
    }
}

/// A string literal whose opening quote is at `s`.
pub open spec fn scan_string(src: Seq<char>, s: int, line: nat) -> Lexed {
    let j = scan_while(src, s + 1, not_quote());
    let l = line + newlines(src.subrange(s + 1, j));
    if j >= src.len() {
        failed(j, l, ScanErrorKind::UnterminatedString)
    } else {
        token_at(
            src,
            s,
            j + 1,
            l,
            TokenType::StringLit,
            Some(LiteralModel::Str(src.subrange(s + 1, j))),
        )
    }
}

/// A format string `f"..."` whose `f` is at `s`. Where it is unterminated,
/// the error is dropped and no token is added.
pub open spec fn scan_fstring(src: Seq<char>, s: int, line: nat) -> Lexed {
    let j = scan_while(src, s + 2, not_quote());
    let l = line + newlines(src.subrange(s + 2, j));
    if j >= src.len() {
        skipped(j, l)
    } else {
        token_at(
            src,
            s,
            j + 1,
            l,
            TokenType::FStringLit,
            Some(LiteralModel::Str(src.subrange(s + 2, j))),
        )
    }
}

/// The closing quote of a character literal, expected at `a`.
pub open spec fn close_char(src: Seq<char>, s: int, a: int, line: nat, ch: char) -> Lexed {
    if a >= src.len() {
        failed(a, line, ScanErrorKind::UnterminatedChar)
    } else if src[a] != '\'' {
        failed(a, line, ScanErrorKind::MultiChar)
    } else {
        token_at(src, s, a + 1, line, TokenType::CharLit, Some(LiteralModel::Char(ch)))
    }
}

/// A character literal whose opening quote is at `s`.
pub open spec fn scan_char(src: Seq<char>, s: int, line: nat) -> Lexed {
    let n = s + 1;
    if n >= src.len() {
        failed(n, line, ScanErrorKind::UnterminatedChar)
    } else if src[n] == '\\' {
        if n + 1 >= src.len() {
            Lexed { end: n + 1, line, token: None, error: None, panics: true }
        } else {
            match escape_of(src[n + 1]) {
                None => failed(n + 2, line, ScanErrorKind::UnknownEscape(src[n + 1])),
                Some(ch) => close_char(src, s, n + 2, line, ch),
            }
        }
    } else {
        close_char(src, s, n + 1, line, src[n])
    }
}

/// Whether the digits that end at `d` go on with a fraction.
pub open spec fn has_fraction(src: Seq<char>, d: int) -> bool {
    peek_at(src, d) == '.' && is_digit_char(peek_at(src, d + 1))
}

/// A number whose first digit is at `s`.
pub open spec fn scan_number(src: Seq<char>, s: int, line: nat) -> Lexed {
    let d = scan_while(src, s + 1, digit_chars());
    let e = if has_fraction(src, d) {
        scan_while(src, d + 1, digit_chars())
    } else {
        d
    };
    let text = src.subrange(s, e);
    if has_fraction(src, d) {
        token_at(src, s, e, line, TokenType::FloatLit, Some(LiteralModel::Float(text)))
    } else if digits_value(text) > i64::MAX {
        failed(e, line, ScanErrorKind::InvalidInteger(text))
    } else {
        token_at(src, s, e, line, TokenType::IntLit, Some(LiteralModel::Int(digits_value(text))))
    }
}

/// A word whose first character is at `s`: a format string where the word
/// is `f` and a quote follows, else a keyword or an identifier.
pub open spec fn scan_word(src: Seq<char>, s: int, line: nat) -> Lexed {
    let e = scan_while(src, s + 1, word_chars());
    let text = src.subrange(s, e);
    if text == seq!['f'] && peek_at(src, e) == '"' {
        scan_fstring(src, s, line)
    } else {
        plain(src, s, e, line, word_kind(text))
    }
}

/// What the scanner reads from `s` on a character that starts an operator
/// or punctuation.
pub open spec fn scan_operator(src: Seq<char>, s: int, line: nat, last_semi: bool) -> Lexed {
    let c = src[s];
    if c == '(' {
        plain(src, s, s + 1, line, TokenType::LeftParen)
    } else if c == ')' {
        plain(src, s, s + 1, line, TokenType::RightParen)
    } else if c == '{' {
        plain(src, s, s + 1, line, TokenType::LeftBrace)
    } else if c == '}' {
        plain(src, s, s + 1, line, TokenType::RightBrace)
    } else if c == '[' {
        plain(src, s, s + 1, line, TokenType::LeftBracket)
    } else if c == ']' {
        plain(src, s, s + 1, line, TokenType::RightBracket)
    } else if c == ',' {
        plain(src, s, s + 1, line, TokenType::Comma)
    } else if c == '?' {
        plain(src, s, s + 1, line, TokenType::Question)
    } else if c == '_' {
        if s + 1 < src.len() && is_word_char(src[s + 1]) {
            scan_word(src, s, line)
        } else {
            plain(src, s, s + 1, line, TokenType::Underscore)
        }
    } else if c == ';' {
        if last_semi {
            let e = scan_while(src, s + 1, semicolons());
            let run_start = if s > 0 && src[s - 1] == ';' {
                s - 1
            } else {
                s
            };
            failed(e, line, ScanErrorKind::Unexpected(src.subrange(run_start, e)))
        } else {
            plain(src, s, s + 1, line, TokenType::Semicolon)
        }
    } else if c == '+' {
        one_or_two(src, s, line, '=', TokenType::PlusEqual, TokenType::Plus)
    } else if c == '*' {
        one_or_two(src, s, line, '=', TokenType::StarEqual, TokenType::Star)
    } else if c == '%' {
        plain(src, s, s + 1, line, TokenType::Percent)
    } else if c == '-' {
        if next_is(src, s + 1, '-') {
            skipped(scan_while(src, s + 2, not_newline()), line)
        } else if next_is(src, s + 1, '>') {
            plain(src, s, s + 2, line, TokenType::Arrow)
        } else {
            one_or_two(src, s, line, '=', TokenType::MinusEqual, TokenType::Minus)
        }
    } else if c == '/' {
        one_or_two(src, s, line, '=', TokenType::SlashEqual, TokenType::Slash)
    } else if c == '.' {
        one_or_two(src, s, line, '.', TokenType::DotDot, TokenType::Dot)
    } else if c == ':' {
        one_or_two(src, s, line, ':', TokenType::ColonColon, TokenType::Colon)
    } else if c == '!' {
        one_or_two(src, s, line, '=', TokenType::BangEqual, TokenType::Bang)
    } else if c == '=' {
        if next_is(src, s + 1, '=') {
            plain(src, s, s + 2, line, TokenType::EqualEqual)
        } else {
            one_or_two(src, s, line, '>', TokenType::FatArrow, TokenType::Equal)
        }
    } else if c == '<' {
        one_or_two(src, s, line, '=', TokenType::LessEqual, TokenType::Less)
    } else if c == '>' {
        one_or_two(src, s, line, '=', TokenType::GreaterEqual, TokenType::Greater)
    } else if c == '&' {
        one_or_two(src, s, line, '&', TokenType::AmpAmp, TokenType::Ampersand)
    } else {
        // c == '|'
        if next_is(src, s + 1, '|') {
            plain(src, s, s + 2, line, TokenType::PipePipe)
        } else {
            failed(s + 1, line, ScanErrorKind::LonePipe)
        }
    }
}

/// The characters on which `scan_operator` acts.
pub open spec fn is_operator_start(c: char) -> bool {
    c == '(' || c == ')' || c == '{' || c == '}' || c == '[' || c == ']' || c == ',' || c == '?'
        || c == '_' || c == ';' || c == '+' || c == '*' || c == '%' || c == '-' || c == '/'
        || c == '.' || c == ':' || c == '!' || c == '=' || c == '<' || c == '>' || c == '&'
        || c == '|'
}

/// One step of the scanner from `s` (which is inside `src`), on `line`,
/// where `last_semi` says whether the last token added is a semicolon.
#[verifier::opaque]
pub open spec fn scan_step(src: Seq<char>, s: int, line: nat, last_semi: bool) -> Lexed {
    let c = src[s];
    if is_operator_start(c) {
        scan_operator(src, s, line, last_semi)
    } else if c == ' ' || c == '\r' || c == '\t' {
        skipped(s + 1, line)
    } else if c == '\n' {
        skipped(s + 1, line + 1)
    } else if c == '"' {
        scan_string(src, s, line)
    } else if c == '\'' {
        scan_char(src, s, line)
    } else if is_digit_char(c) {
        scan_number(src, s, line)
    } else if is_letter(c) || c == '_' {
        scan_word(src, s, line)
    } else {
        failed(s + 1, line, ScanErrorKind::Unrecognized(c))
    }
}

/// The message of the error a step reports, if any: it names the line the
/// step ends on.
pub open spec fn error_message(step: Lexed) -> Option<Seq<char>> {
    match step.error {
        Some(kind) => Some(message(kind, step.line)),
        None => None,
    }
}

/// Whether the last token added after a step is a semicolon.
pub open spec fn semi_after(step: Lexed, last_semi: bool) -> bool {
    match step.token {
        Some(t) => t.kind == TokenType::Semicolon,
        None => last_semi,
    }
}

pub open spec fn option_seq<T>(o: Option<T>) -> Seq<T> {
    match o {
        Some(x) => seq![x],
        None => seq![],
    }
}

/// What a run of the scanner from `pos` to the end of `src` produces: the
/// tokens it adds, the errors it reports, the line it ends on, and whether
/// it would index past the end of the source.
pub struct ScanRun {
    pub tokens: Seq<TokenModel>,
    pub errors: Seq<Seq<char>>,
    pub line: nat,
    pub panics: bool,
}

/// A scan from `i` stops between `i` and the end.
pub proof fn lemma_scan_while_bounds(src: Seq<char>, i: int, keep: spec_fn(char) -> bool)
    requires
        0 <= i <= src.len(),
    ensures
        i <= scan_while(src, i, keep) <= src.len(),
    decreases src.len() - i,
{
    if i < src.len() && keep(src[i]) {
        lemma_scan_while_bounds(src, i + 1, keep);
    }
}

/// A scan that passes `[i, j)` and stops at `j` ends at `j`.
pub proof fn lemma_scan_while_exact(src: Seq<char>, i: int, j: int, keep: spec_fn(char) -> bool)
    requires
        0 <= i <= j <= src.len(),
        forall|k: int| i <= k < j ==> #[trigger] keep(src[k]),
        j == src.len() || !keep(src[j]),
    ensures
        scan_while(src, i, keep) == j,
    decreases j - i,
{
    if i < j {
        lemma_scan_while_exact(src, i + 1, j, keep);
    }
}

/// Counting line breaks one character further.
pub proof fn lemma_newlines_extend(src: Seq<char>, a: int, b: int)
    requires
        0 <= a <= b < src.len(),
    ensures
        newlines(src.subrange(a, b + 1)) == newlines(src.subrange(a, b)) + if src[b] == '\n' {
            1nat
        } else {
            0nat
        },
{
    assert(src.subrange(a, b + 1).drop_last() =~= src.subrange(a, b));
}

/// A step ends past where it starts, and no further than the end.
pub proof fn lemma_step_bounds(src: Seq<char>, s: int, line: nat, last_semi: bool)
    requires
        0 <= s < src.len(),
    ensures
        s < scan_step(src, s, line, last_semi).end <= src.len(),
{
    reveal(scan_step);
    lemma_scan_while_bounds(src, s + 1, word_chars());
    lemma_scan_while_bounds(src, s + 1, digit_chars());
    lemma_scan_while_bounds(src, s + 1, not_quote());
    lemma_scan_while_bounds(src, s + 1, semicolons());
    if s + 2 <= src.len() {
        lemma_scan_while_bounds(src, s + 2, not_newline());
        lemma_scan_while_bounds(src, s + 2, not_quote());
    }
    let d = scan_while(src, s + 1, digit_chars());
    if d + 1 <= src.len() {
        lemma_scan_while_bounds(src, d + 1, digit_chars());
    }
}

pub open spec fn scan_run(src: Seq<char>, pos: int, line: nat, last_semi: bool) -> ScanRun
    decreases src.len() - pos,
{
    if pos < 0 || pos >= src.len() {
        ScanRun { tokens: seq![], errors: seq![], line, panics: false }
    } else {
        let step = scan_step(src, pos, line, last_semi);
        if step.panics {
            ScanRun { tokens: seq![], errors: seq![], line: step.line, panics: true }
        } else {
            proof {
                lemma_step_bounds(src, pos, line, last_semi);
            }
            let rest = scan_run(src, step.end, step.line, semi_after(step, last_semi));
            ScanRun {
                tokens: option_seq(step.token) + rest.tokens,
                errors: option_seq(error_message(step)) + rest.errors,
                line: rest.line,
                panics: rest.panics,
            }
        }
    }
}

/// The errors joined into one text, each followed by a line break.
pub open spec fn join_errors(errors: Seq<Seq<char>>) -> Seq<char>
    decreases errors.len(),
{
    if errors.len() == 0 {
        seq![]
    } else {
        join_errors(errors.drop_last()) + errors.last() + seq!['\n']
    }
}

} // verus!
