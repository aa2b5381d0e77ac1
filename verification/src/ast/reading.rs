//! What one step of the scanner reads from each kind of text (words,
//! numbers, string and character literals, operators, layout), stated over
//! the characters of the source rather than over the model's own helpers.
use vstd::prelude::*;
use crate::ast::laws::{
    is_keyword_kind, law_keywords_distinct, lemma_keyword_kind, lemma_run_unfold,
};
use crate::ast::lexing::{
    digit_chars, is_word_char, keyword_table, lemma_scan_while_exact, lemma_step_bounds,
    lookup_keyword, newlines, not_newline, not_quote, peek_at, scan_run, scan_step, scan_while,
    semi_after, semicolons, word_chars, Lexed, ScanErrorKind,
};
use crate::ast::text::{digits_value, is_digit_char, is_letter};
use crate::ast::tokens::{LiteralModel, TokenModel, TokenType};

verus! {

/// The entry that a first-match lookup finds is an entry of the table, with
/// the word as its key; where it finds none, no entry has the word as key.
pub proof fn lemma_lookup_entry(table: Seq<(Seq<char>, TokenType)>, text: Seq<char>)
    ensures
        lookup_keyword(table, text) matches Some(k) ==> exists|i: int|
            0 <= i < table.len() && #[trigger] table[i] == (text, k),
        lookup_keyword(table, text) is None ==> forall|i: int|
            0 <= i < table.len() ==> (#[trigger] table[i]).0 != text,
    decreases table.len(),
{
    if table.len() > 0 {
        let rest = table.drop_first();
        lemma_lookup_entry(rest, text);
        if table[0].0 == text {
            assert(table[0] == (text, table[0].1));
        } else {
            if let Some(k) = lookup_keyword(rest, text) {
                let i = choose|i: int| 0 <= i < rest.len() && #[trigger] rest[i] == (text, k);
                assert(table[i + 1] == (text, k));
            } else {
                assert forall|i: int| 0 <= i < table.len() implies (#[trigger] table[i]).0
                    != text by {
                    if i > 0 {
                        assert(table[i] == rest[i - 1]);
                    }
                }
            }
        }
    }
}

/// The kind the keyword table gives a word: for a word that is the key of
/// an entry, that entry's kind; for any other word, `Identifier`.
pub proof fn lemma_word_kind_entry(w: Seq<char>)
    ensures
        forall|i: int|
            0 <= i < keyword_table().len() && (#[trigger] keyword_table()[i]).0 == w
                ==> lookup_keyword(keyword_table(), w) == Some(keyword_table()[i].1),
        (forall|i: int| 0 <= i < keyword_table().len() ==> (#[trigger] keyword_table()[i]).0 != w)
            ==> lookup_keyword(keyword_table(), w) is None,
{
    let t = keyword_table();
    lemma_lookup_entry(t, w);
    law_keywords_distinct();
    assert forall|i: int| 0 <= i < t.len() && (#[trigger] t[i]).0 == w implies lookup_keyword(
        t,
        w,
    ) == Some(t[i].1) by {
        if let Some(k) = lookup_keyword(t, w) {
            let j = choose|j: int| 0 <= j < t.len() && #[trigger] t[j] == (w, k);
            if i < j {
                assert(t[i].0 != t[j].0);
            } else if j < i {
                assert(t[j].0 != t[i].0);
            }
        }
    }
}

/// A word (a letter, or `_` and at least one more character, then letters,
/// digits and `_`) is read whole as one token, on the line the step starts
/// on. Its kind is the kind of the keyword-table entry whose key is the
/// whole word, or `Identifier` where no entry has the word as key: a word
/// that merely begins or ends with a keyword is an identifier. The one
/// exception, `f` right before a quote, starts a format string.
pub proof fn law_word_token(src: Seq<char>, s: int, e: int, line: nat, last_semi: bool)
    requires
        0 <= s < e <= src.len(),
        is_letter(src[s]) || (src[s] == '_' && e > s + 1),
        forall|k: int| s < k < e ==> is_word_char(#[trigger] src[k]),
        e == src.len() || !is_word_char(src[e]),
        !(e == s + 1 && src[s] == 'f' && e < src.len() && src[e] == '"'),
    ensures
        ({
            let st = scan_step(src, s, line, last_semi);
            let w = src.subrange(s, e);
            &&& st.end == e
            &&& st.line == line
            &&& st.error is None
            &&& st.token matches Some(t) && {
                &&& t.lexeme == w
                &&& t.literal is None
                &&& t.line == line
                &&& forall|i: int|
                    0 <= i < keyword_table().len() && (#[trigger] keyword_table()[i]).0 == w
                        ==> t.kind == keyword_table()[i].1
                &&& (forall|i: int|
                    0 <= i < keyword_table().len() ==> (#[trigger] keyword_table()[i]).0 != w)
                    ==> t.kind == TokenType::Identifier
            }
        }),
{
    reveal(scan_step);
    assert forall|k: int| s + 1 <= k < e implies #[trigger] word_chars()(src[k]) by {
        assert(is_word_char(src[k]));
    }
    if e < src.len() {
        assert(!word_chars()(src[e]));
    }
    lemma_scan_while_exact(src, s + 1, e, word_chars());
    let w = src.subrange(s, e);
    if w == seq!['f'] {
        assert(w.len() == 1 && w[0] == src[s]);
    }
    lemma_word_kind_entry(w);
}

/// A number is read from its first digit `s` through all the digits that
/// follow (up to `d`). Where a dot and a digit come next, the number goes on
/// through the dot and every digit after it (up to `e`), whatever the number
/// of digits before the dot, and is one `FloatLit` whose value is its whole
/// text. Otherwise it is one `IntLit` whose value is the number its digits
/// denote, or, where that number exceeds `i64::MAX`, no token and an
/// invalid-integer error naming the digits.
pub proof fn law_number_token(src: Seq<char>, s: int, d: int, e: int, line: nat, last_semi: bool)
    requires
        0 <= s < d <= e <= src.len(),
        forall|k: int| s <= k < d ==> is_digit_char(#[trigger] src[k]),
        d == src.len() || !is_digit_char(src[d]),
        d + 1 < src.len() && src[d] == '.' && is_digit_char(src[d + 1]) ==> {
            &&& d + 1 < e
            &&& forall|k: int| d + 1 <= k < e ==> is_digit_char(#[trigger] src[k])
            &&& e == src.len() || !is_digit_char(src[e])
        },
        !(d + 1 < src.len() && src[d] == '.' && is_digit_char(src[d + 1])) ==> e == d,
    ensures
        ({
            let st = scan_step(src, s, line, last_semi);
            let text = src.subrange(s, e);
            &&& st.end == e
            &&& st.line == line
            &&& (d + 1 < src.len() && src[d] == '.' && is_digit_char(src[d + 1])) ==> {
                &&& st.error is None
                &&& st.token == Some(
                    TokenModel {
                        kind: TokenType::FloatLit,
                        lexeme: text,
                        literal: Some(LiteralModel::Float(text)),
                        line: line as int,
                    },
                )
            }
            &&& !(d + 1 < src.len() && src[d] == '.' && is_digit_char(src[d + 1]))
                && digits_value(text) <= i64::MAX ==> {
                &&& st.error is None
                &&& st.token == Some(
                    TokenModel {
                        kind: TokenType::IntLit,
                        lexeme: text,
                        literal: Some(LiteralModel::Int(digits_value(text))),
                        line: line as int,
                    },
                )
            }
            &&& !(d + 1 < src.len() && src[d] == '.' && is_digit_char(src[d + 1]))
                && digits_value(text) > i64::MAX ==> {
                &&& st.token is None
                &&& st.error == Some(ScanErrorKind::InvalidInteger(text))
            }
        }),
{
    reveal(scan_step);
    assert forall|k: int| s + 1 <= k < d implies #[trigger] digit_chars()(src[k]) by {
        assert(is_digit_char(src[k]));
    }
    if d < src.len() {
        assert(!digit_chars()(src[d]));
    }
    lemma_scan_while_exact(src, s + 1, d, digit_chars());
    if d + 1 < src.len() && src[d] == '.' && is_digit_char(src[d + 1]) {
        assert forall|k: int| d + 1 <= k < e implies #[trigger] digit_chars()(src[k]) by {
            assert(is_digit_char(src[k]));
        }
        if e < src.len() {
            assert(!digit_chars()(src[e]));
        }
        lemma_scan_while_exact(src, d + 1, e, digit_chars());
    }
}

/// A string literal runs from its opening quote to the next double quote,
/// and nothing else closes it: its value is every character in between (an
/// apostrophe among them), its text includes both quotes, and the line
/// breaks inside it move the line on. Where no double quote follows, no
/// token is added and an unterminated-string error is reported at the end.
pub proof fn law_string_token(src: Seq<char>, s: int, j: int, line: nat, last_semi: bool)
    requires
        0 <= s < j <= src.len(),
        src[s] == '"',
        forall|k: int| s < k < j ==> #[trigger] src[k] != '"',
        j == src.len() || src[j] == '"',
    ensures
        ({
            let st = scan_step(src, s, line, last_semi);
            let value = src.subrange(s + 1, j);
            let l = line + newlines(value);
            &&& st.line == l
            &&& j < src.len() ==> {
                &&& st.end == j + 1
                &&& st.error is None
                &&& st.token == Some(
                    TokenModel {
                        kind: TokenType::StringLit,
                        lexeme: src.subrange(s, j + 1),
                        literal: Some(LiteralModel::Str(value)),
                        line: l as int,
                    },
                )
            }
            &&& j == src.len() ==> {
                &&& st.end == j
                &&& st.token is None
                &&& st.error == Some(ScanErrorKind::UnterminatedString)
            }
        }),
{
    reveal(scan_step);
    assert forall|k: int| s + 1 <= k < j implies #[trigger] not_quote()(src[k]) by {
        assert(src[k] != '"');
    }
    lemma_scan_while_exact(src, s + 1, j, not_quote());
}

/// A format string `f"..."` runs from its `f` to the next double quote: its
/// value is every character between the quotes, its text includes the `f`
/// and both quotes, and the line breaks inside it move the line on. Where no
/// double quote follows, it is dropped: no token and no error.
pub proof fn law_fstring_token(src: Seq<char>, s: int, j: int, line: nat, last_semi: bool)
    requires
        0 <= s,
        s + 2 <= j <= src.len(),
        src[s] == 'f',
        src[s + 1] == '"',
        forall|k: int| s + 2 <= k < j ==> #[trigger] src[k] != '"',
        j == src.len() || src[j] == '"',
    ensures
        ({
            let st = scan_step(src, s, line, last_semi);
            let value = src.subrange(s + 2, j);
            let l = line + newlines(value);
            &&& st.line == l
            &&& st.error is None
            &&& j < src.len() ==> {
                &&& st.end == j + 1
                &&& st.token == Some(
                    TokenModel {
                        kind: TokenType::FStringLit,
                        lexeme: src.subrange(s, j + 1),
                        literal: Some(LiteralModel::Str(value)),
                        line: l as int,
                    },
                )
            }
            &&& j == src.len() ==> st.end == j && st.token is None
        }),
{
    reveal(scan_step);
    assert(!word_chars()(src[s + 1]));
    lemma_scan_while_exact(src, s + 1, s + 1, word_chars());
    assert(src.subrange(s, s + 1) =~= seq!['f']);
    assert forall|k: int| s + 2 <= k < j implies #[trigger] not_quote()(src[k]) by {
        assert(src[k] != '"');
    }
    lemma_scan_while_exact(src, s + 2, j, not_quote());
}

/// A keyword token is an entry of the keyword table (its text the entry's
/// key, its kind the entry's kind), and an identifier token's text is the
/// key of no entry.
pub open spec fn fits_keyword_table(t: TokenModel) -> bool {
    &&& is_keyword_kind(t.kind) ==> exists|j: int|
        0 <= j < keyword_table().len() && #[trigger] keyword_table()[j] == (t.lexeme, t.kind)
    &&& t.kind == TokenType::Identifier ==> forall|j: int|
        0 <= j < keyword_table().len() ==> (#[trigger] keyword_table()[j]).0 != t.lexeme
}

/// A step that adds an identifier or a keyword has looked its whole text up
/// in the keyword table.
proof fn lemma_step_word_lookup(src: Seq<char>, s: int, line: nat, last_semi: bool)
    requires
        0 <= s < src.len(),
    ensures
        scan_step(src, s, line, last_semi).token matches Some(t) ==> {
            &&& t.kind == TokenType::Identifier ==> lookup_keyword(keyword_table(), t.lexeme)
                is None
            &&& is_keyword_kind(t.kind) ==> lookup_keyword(keyword_table(), t.lexeme) == Some(
                t.kind,
            )
        },
{
    reveal(scan_step);
    let e = scan_while(src, s + 1, word_chars());
    lemma_keyword_kind(src.subrange(s, e));
}

/// Every token of a scan fits the keyword table: no word is read as a
/// keyword unless the whole word is that keyword, and none that is a
/// keyword is read as an identifier.
pub proof fn law_keyword_tokens(src: Seq<char>, pos: int, line: nat, last_semi: bool)
    requires
        0 <= pos,
    ensures
        forall|i: int|
            0 <= i < scan_run(src, pos, line, last_semi).tokens.len() ==> fits_keyword_table(
                #[trigger] scan_run(src, pos, line, last_semi).tokens[i],
            ),
    decreases src.len() - pos,
{
    if pos < src.len() {
        let r = scan_run(src, pos, line, last_semi);
        let st = scan_step(src, pos, line, last_semi);
        lemma_run_unfold(src, pos, line, last_semi);
        if !st.panics {
            lemma_step_bounds(src, pos, line, last_semi);
            let next = semi_after(st, last_semi);
            let rest = scan_run(src, st.end, st.line, next);
            law_keyword_tokens(src, st.end, st.line, next);
            if let Some(t) = st.token {
                lemma_step_word_lookup(src, pos, line, last_semi);
                lemma_lookup_entry(keyword_table(), t.lexeme);
                assert(fits_keyword_table(t));
                assert forall|i: int| 0 <= i < r.tokens.len() implies fits_keyword_table(
                    #[trigger] r.tokens[i],
                ) by {
                    if i > 0 {
                        assert(r.tokens[i] == rest.tokens[i - 1]);
                    }
                }
            } else {
                assert(r.tokens =~= rest.tokens);
            }
        }
    }
}

/// A step that adds the token `kind` read from the `n` characters at `s`,
/// with no literal value, on `line`, and reports no error.
pub open spec fn reads_token(
    st: Lexed,
    src: Seq<char>,
    s: int,
    n: int,
    line: nat,
    kind: TokenType,
) -> bool {
    &&& st.end == s + n
    &&& st.line == line
    &&& st.error is None
    &&& st.token == Some(
        TokenModel { kind, lexeme: src.subrange(s, s + n), literal: None, line: line as int },
    )
}

/// Each two-character operator is read as one token, in preference to the
/// one-character operator that its first character would be on its own.
pub proof fn law_two_char_operators(src: Seq<char>, s: int, line: nat, last_semi: bool)
    requires
        0 <= s,
        s + 2 <= src.len(),
    ensures
        ({
            let st = scan_step(src, s, line, last_semi);
            let (c, d) = (src[s], src[s + 1]);
            &&& c == '+' && d == '=' ==> reads_token(st, src, s, 2, line, TokenType::PlusEqual)
            &&& c == '*' && d == '=' ==> reads_token(st, src, s, 2, line, TokenType::StarEqual)
            &&& c == '-' && d == '>' ==> reads_token(st, src, s, 2, line, TokenType::Arrow)
            &&& c == '-' && d == '=' ==> reads_token(st, src, s, 2, line, TokenType::MinusEqual)
            &&& c == '/' && d == '=' ==> reads_token(st, src, s, 2, line, TokenType::SlashEqual)
            &&& c == '.' && d == '.' ==> reads_token(st, src, s, 2, line, TokenType::DotDot)
            &&& c == ':' && d == ':' ==> reads_token(st, src, s, 2, line, TokenType::ColonColon)
            &&& c == '!' && d == '=' ==> reads_token(st, src, s, 2, line, TokenType::BangEqual)
            &&& c == '=' && d == '=' ==> reads_token(st, src, s, 2, line, TokenType::EqualEqual)
            &&& c == '=' && d == '>' ==> reads_token(st, src, s, 2, line, TokenType::FatArrow)
            &&& c == '<' && d == '=' ==> reads_token(st, src, s, 2, line, TokenType::LessEqual)
            &&& c == '>' && d == '=' ==> reads_token(st, src, s, 2, line, TokenType::GreaterEqual)
            &&& c == '&' && d == '&' ==> reads_token(st, src, s, 2, line, TokenType::AmpAmp)
            &&& c == '|' && d == '|' ==> reads_token(st, src, s, 2, line, TokenType::PipePipe)
        }),
{
    reveal(scan_step);
}

/// Punctuation is read one character at a time, and an operator character
/// is read alone where the next character would not make a two-character
/// operator (or a comment) of it. A lone `_` is `Underscore`, a `;` is a
/// semicolon token unless the last token is one, and a lone `|` is an error.
pub proof fn law_one_char_operators(src: Seq<char>, s: int, line: nat, last_semi: bool)
    requires
        0 <= s < src.len(),
    ensures
        ({
            let st = scan_step(src, s, line, last_semi);
            let c = src[s];
            let next = peek_at(src, s + 1);
            &&& c == '(' ==> reads_token(st, src, s, 1, line, TokenType::LeftParen)
            &&& c == ')' ==> reads_token(st, src, s, 1, line, TokenType::RightParen)
            &&& c == '{' ==> reads_token(st, src, s, 1, line, TokenType::LeftBrace)
            &&& c == '}' ==> reads_token(st, src, s, 1, line, TokenType::RightBrace)
            &&& c == '[' ==> reads_token(st, src, s, 1, line, TokenType::LeftBracket)
            &&& c == ']' ==> reads_token(st, src, s, 1, line, TokenType::RightBracket)
            &&& c == ',' ==> reads_token(st, src, s, 1, line, TokenType::Comma)
            &&& c == '?' ==> reads_token(st, src, s, 1, line, TokenType::Question)
            &&& c == '%' ==> reads_token(st, src, s, 1, line, TokenType::Percent)
            &&& c == '+' && next != '=' ==> reads_token(st, src, s, 1, line, TokenType::Plus)
            &&& c == '*' && next != '=' ==> reads_token(st, src, s, 1, line, TokenType::Star)
            &&& c == '/' && next != '=' ==> reads_token(st, src, s, 1, line, TokenType::Slash)
            &&& c == '.' && next != '.' ==> reads_token(st, src, s, 1, line, TokenType::Dot)
            &&& c == ':' && next != ':' ==> reads_token(st, src, s, 1, line, TokenType::Colon)
            &&& c == '!' && next != '=' ==> reads_token(st, src, s, 1, line, TokenType::Bang)
            &&& c == '<' && next != '=' ==> reads_token(st, src, s, 1, line, TokenType::Less)
            &&& c == '>' && next != '=' ==> reads_token(st, src, s, 1, line, TokenType::Greater)
            &&& c == '&' && next != '&' ==> reads_token(st, src, s, 1, line, TokenType::Ampersand)
            &&& c == '-' && next != '-' && next != '>' && next != '=' ==> reads_token(
                st,
                src,
                s,
                1,
                line,
                TokenType::Minus,
            )
            &&& c == '=' && next != '=' && next != '>' ==> reads_token(
                st,
                src,
                s,
                1,
                line,
                TokenType::Equal,
            )
            &&& c == '_' && !(s + 1 < src.len() && is_word_char(src[s + 1])) ==> reads_token(
                st,
                src,
                s,
                1,
                line,
                TokenType::Underscore,
            )
            &&& c == ';' && !last_semi ==> reads_token(st, src, s, 1, line, TokenType::Semicolon)
            &&& c == '|' && next != '|' ==> st.end == s + 1 && st.token is None && st.error
                == Some(ScanErrorKind::LonePipe)
        }),
{
    reveal(scan_step);
}

/// Spaces, tabs and carriage returns are skipped; a line break is skipped
/// and moves the line on by one; a `--` comment is skipped up to the next
/// line break, which it leaves to be read. None of these adds a token or
/// reports an error.
pub proof fn law_layout(src: Seq<char>, s: int, n: int, line: nat, last_semi: bool)
    requires
        0 <= s < src.len(),
    ensures
        ({
            let st = scan_step(src, s, line, last_semi);
            &&& (src[s] == ' ' || src[s] == '\t' || src[s] == '\r') ==> st.end == s + 1
                && st.line == line && st.token is None && st.error is None
            &&& src[s] == '\n' ==> st.end == s + 1 && st.line == line + 1 && st.token is None
                && st.error is None
            &&& src[s] == '-' && s + 2 <= n <= src.len() && src[s + 1] == '-' && (forall|k: int|
                s + 2 <= k < n ==> #[trigger] src[k] != '\n') && (n == src.len() || src[n]
                == '\n') ==> st.end == n && st.line == line && st.token is None && st.error
                is None
        }),
{
    reveal(scan_step);
    if src[s] == '-' && s + 2 <= n <= src.len() && src[s + 1] == '-' && (forall|k: int|
        s + 2 <= k < n ==> #[trigger] src[k] != '\n') && (n == src.len() || src[n] == '\n') {
        assert forall|k: int| s + 2 <= k < n implies #[trigger] not_newline()(src[k]) by {
            assert(src[k] != '\n');
        }
        lemma_scan_while_exact(src, s + 2, n, not_newline());
    }
}

/// A character literal is a quote, one character or an escape, and a
/// closing quote. It is read as one `CharLit` whose value is the character,
/// or for an escape the character it stands for: `\n` a line break, `\t` a
/// tab, `\r` a carriage return, `\0` NUL, `\\` a backslash, `\'` a quote.
/// Any other escape is an unknown-escape error naming its character; a
/// literal not closed right after its character is a multi-char error, or
/// an unterminated one where the source ends there.
pub proof fn law_char_token(src: Seq<char>, s: int, line: nat, last_semi: bool)
    requires
        0 <= s,
        s + 1 < src.len(),
        src[s] == '\'',
    ensures
        ({
            let st = scan_step(src, s, line, last_semi);
            let c = src[s + 1];
            &&& st.line == line
            &&& c != '\\' && s + 2 < src.len() && src[s + 2] == '\'' ==> st.end == s + 3
                && st.error is None && st.token == Some(
                TokenModel {
                    kind: TokenType::CharLit,
                    lexeme: src.subrange(s, s + 3),
                    literal: Some(LiteralModel::Char(c)),
                    line: line as int,
                },
            )
            &&& c != '\\' && s + 2 < src.len() && src[s + 2] != '\'' ==> st.token is None
                && st.error == Some(ScanErrorKind::MultiChar)
            &&& c != '\\' && s + 2 == src.len() ==> st.token is None && st.error == Some(
                ScanErrorKind::UnterminatedChar,
            )
            &&& c == '\\' && s + 3 < src.len() && src[s + 3] == '\'' ==> {
                let e = src[s + 2];
                &&& e == 'n' ==> (st.token matches Some(t) && t.literal == Some(
                    LiteralModel::Char('\n'),
                ))
                &&& e == 't' ==> (st.token matches Some(t) && t.literal == Some(
                    LiteralModel::Char('\t'),
                ))
                &&& e == 'r' ==> (st.token matches Some(t) && t.literal == Some(
                    LiteralModel::Char('\r'),
                ))
                &&& e == '0' ==> (st.token matches Some(t) && t.literal == Some(
                    LiteralModel::Char('\0'),
                ))
                &&& e == '\\' ==> (st.token matches Some(t) && t.literal == Some(
                    LiteralModel::Char('\\'),
                ))
                &&& e == '\'' ==> (st.token matches Some(t) && t.literal == Some(
                    LiteralModel::Char('\''),
                ))
                &&& st.token matches Some(t) ==> t.kind == TokenType::CharLit && t.lexeme
                    == src.subrange(s, s + 4) && st.end == s + 4
            }
            &&& c == '\\' && s + 2 < src.len() && !(src[s + 2] == 'n' || src[s + 2] == 't'
                || src[s + 2] == 'r' || src[s + 2] == '0' || src[s + 2] == '\\' || src[s + 2]
                == '\'') ==> st.token is None && st.error == Some(
                ScanErrorKind::UnknownEscape(src[s + 2]),
            )
        }),
{
    reveal(scan_step);
}

/// A `;` right after a semicolon token adds no token: the whole run of
/// semicolons from there is read at once and reported as unexpected, with
/// the semicolon before it where that one stands just before the run.
pub proof fn law_repeated_semicolon(src: Seq<char>, s: int, n: int, line: nat)
    requires
        0 <= s < n <= src.len(),
        forall|k: int| s <= k < n ==> #[trigger] src[k] == ';',
        n == src.len() || src[n] != ';',
    ensures
        ({
            let st = scan_step(src, s, line, true);
            let from = if s > 0 && src[s - 1] == ';' {
                s - 1
            } else {
                s
            };
            &&& st.end == n
            &&& st.line == line
            &&& st.token is None
            &&& st.error == Some(ScanErrorKind::Unexpected(src.subrange(from, n)))
        }),
{
    reveal(scan_step);
    assert forall|k: int| s + 1 <= k < n implies #[trigger] semicolons()(src[k]) by {
        assert(src[k] == ';');
    }
    if n < src.len() {
        assert(!semicolons()(src[n]));
    }
    lemma_scan_while_exact(src, s + 1, n, semicolons());
}

} // verus!
