//! Properties of every scan, proved over the model of scanning.
use vstd::prelude::*;
use crate::ast::lexing::{
    error_message, join_errors, message, ScanErrorKind, keyword_of, keyword_table, lemma_step_bounds, lookup_keyword, newlines, option_seq, scan_run,
    scan_step, scan_while, semi_after, word_chars,
};
use crate::ast::scanner::eof_token;
use crate::ast::tokens::{TokenModel, TokenType};

verus! {

/// The kinds that the keyword table gives.
pub open spec fn is_keyword_kind(k: TokenType) -> bool {
    match k {
        TokenType::Fn | TokenType::Let | TokenType::Return | TokenType::Struct
        | TokenType::Enum | TokenType::Extend | TokenType::Interface | TokenType::Match
        | TokenType::If | TokenType::Else | TokenType::While | TokenType::For | TokenType::In
        | TokenType::Loop | TokenType::Break | TokenType::Continue | TokenType::Defer
        | TokenType::Region | TokenType::Use | TokenType::Public | TokenType::Async
        | TokenType::True | TokenType::False | TokenType::Or | TokenType::As
        | TokenType::SelfKw | TokenType::Mut | TokenType::Move => true,
        _ => false,
    }
}

/// Every kind in `table` is a keyword kind.
pub open spec fn all_keyword_kinds(table: Seq<(Seq<char>, TokenType)>) -> bool
    decreases table.len(),
{
    table.len() == 0 || (is_keyword_kind(table[0].1) && all_keyword_kinds(table.drop_first()))
}

proof fn lemma_lookup_kind(table: Seq<(Seq<char>, TokenType)>, text: Seq<char>)
    requires
        all_keyword_kinds(table),
    ensures
        lookup_keyword(table, text) matches Some(k) ==> is_keyword_kind(k),
    decreases table.len(),
{
    if table.len() > 0 {
        lemma_lookup_kind(table.drop_first(), text);
    }
}

/// A word that is a keyword is read as a keyword kind.
pub proof fn lemma_keyword_kind(text: Seq<char>)
    ensures
        keyword_of(text) matches Some(k) ==> is_keyword_kind(k),
{
    reveal_with_fuel(all_keyword_kinds, 30);
    assert(all_keyword_kinds(keyword_table()));
    lemma_lookup_kind(keyword_table(), text);
}

/// Whether some entry of `table` has key `key`.
pub open spec fn has_key(table: Seq<(Seq<char>, TokenType)>, key: Seq<char>) -> bool
    decreases table.len(),
{
    table.len() > 0 && (table[0].0 == key || has_key(table.drop_first(), key))
}

/// No key occurs twice in `table`.
pub open spec fn keys_unique(table: Seq<(Seq<char>, TokenType)>) -> bool
    decreases table.len(),
{
    table.len() == 0 || (!has_key(table.drop_first(), table[0].0) && keys_unique(
        table.drop_first(),
    ))
}

proof fn lemma_has_key(table: Seq<(Seq<char>, TokenType)>, key: Seq<char>, j: int)
    requires
        0 <= j < table.len(),
        table[j].0 == key,
    ensures
        has_key(table, key),
    decreases table.len(),
{
    if j > 0 {
        lemma_has_key(table.drop_first(), key, j - 1);
    }
}

proof fn lemma_keys_unique_distinct(table: Seq<(Seq<char>, TokenType)>, i: int, j: int)
    requires
        keys_unique(table),
        0 <= i < j < table.len(),
    ensures
        table[i].0 != table[j].0,
    decreases table.len(),
{
    if i == 0 {
        if table[0].0 == table[j].0 {
            lemma_has_key(table.drop_first(), table[0].0, j - 1);
        }
    } else {
        lemma_keys_unique_distinct(table.drop_first(), i - 1, j - 1);
    }
}

/// No keyword occurs twice in the keyword table, so the table is a map from
/// words to kinds.
pub proof fn law_keywords_distinct()
    ensures
        forall|i: int, j: int|
            0 <= i < j < keyword_table().len() ==> keyword_table()[i].0
                != keyword_table()[j].0,
{
    assert(seq!['f', 'n'][0] != seq!['i', 'f'][0]);
    assert(seq!['f', 'n'][0] != seq!['i', 'n'][0]);
    assert(seq!['f', 'n'][0] != seq!['o', 'r'][0]);
    assert(seq!['f', 'n'][0] != seq!['a', 's'][0]);
    assert(seq!['l', 'e', 't'][0] != seq!['f', 'o', 'r'][0]);
    assert(seq!['l', 'e', 't'][0] != seq!['u', 's', 'e'][0]);
    assert(seq!['l', 'e', 't'][0] != seq!['m', 'u', 't'][0]);
    assert(seq!['r', 'e', 't', 'u', 'r', 'n'][0] != seq!['s', 't', 'r', 'u', 'c', 't'][0]);
    assert(seq!['r', 'e', 't', 'u', 'r', 'n'][0] != seq!['e', 'x', 't', 'e', 'n', 'd'][0]);
    assert(seq!['r', 'e', 't', 'u', 'r', 'n'][2] != seq!['r', 'e', 'g', 'i', 'o', 'n'][2]);
    assert(seq!['r', 'e', 't', 'u', 'r', 'n'][0] != seq!['p', 'u', 'b', 'l', 'i', 'c'][0]);
    assert(seq!['s', 't', 'r', 'u', 'c', 't'][0] != seq!['e', 'x', 't', 'e', 'n', 'd'][0]);
    assert(seq!['s', 't', 'r', 'u', 'c', 't'][0] != seq!['r', 'e', 'g', 'i', 'o', 'n'][0]);
    assert(seq!['s', 't', 'r', 'u', 'c', 't'][0] != seq!['p', 'u', 'b', 'l', 'i', 'c'][0]);
    assert(seq!['e', 'n', 'u', 'm'][1] != seq!['e', 'l', 's', 'e'][1]);
    assert(seq!['e', 'n', 'u', 'm'][0] != seq!['l', 'o', 'o', 'p'][0]);
    assert(seq!['e', 'n', 'u', 'm'][0] != seq!['t', 'r', 'u', 'e'][0]);
    assert(seq!['e', 'n', 'u', 'm'][0] != seq!['s', 'e', 'l', 'f'][0]);
    assert(seq!['e', 'n', 'u', 'm'][0] != seq!['m', 'o', 'v', 'e'][0]);
    assert(seq!['e', 'x', 't', 'e', 'n', 'd'][0] != seq!['r', 'e', 'g', 'i', 'o', 'n'][0]);
    assert(seq!['e', 'x', 't', 'e', 'n', 'd'][0] != seq!['p', 'u', 'b', 'l', 'i', 'c'][0]);
    assert(seq!['m', 'a', 't', 'c', 'h'][0] != seq!['w', 'h', 'i', 'l', 'e'][0]);
    assert(seq!['m', 'a', 't', 'c', 'h'][0] != seq!['b', 'r', 'e', 'a', 'k'][0]);
    assert(seq!['m', 'a', 't', 'c', 'h'][0] != seq!['d', 'e', 'f', 'e', 'r'][0]);
    assert(seq!['m', 'a', 't', 'c', 'h'][0] != seq!['a', 's', 'y', 'n', 'c'][0]);
    assert(seq!['m', 'a', 't', 'c', 'h'][0] != seq!['f', 'a', 'l', 's', 'e'][0]);
    assert(seq!['i', 'f'][1] != seq!['i', 'n'][1]);
    assert(seq!['i', 'f'][0] != seq!['o', 'r'][0]);
    assert(seq!['i', 'f'][0] != seq!['a', 's'][0]);
    assert(seq!['e', 'l', 's', 'e'][0] != seq!['l', 'o', 'o', 'p'][0]);
    assert(seq!['e', 'l', 's', 'e'][0] != seq!['t', 'r', 'u', 'e'][0]);
    assert(seq!['e', 'l', 's', 'e'][0] != seq!['s', 'e', 'l', 'f'][0]);
    assert(seq!['e', 'l', 's', 'e'][0] != seq!['m', 'o', 'v', 'e'][0]);
    assert(seq!['w', 'h', 'i', 'l', 'e'][0] != seq!['b', 'r', 'e', 'a', 'k'][0]);
    assert(seq!['w', 'h', 'i', 'l', 'e'][0] != seq!['d', 'e', 'f', 'e', 'r'][0]);
    assert(seq!['w', 'h', 'i', 'l', 'e'][0] != seq!['a', 's', 'y', 'n', 'c'][0]);
    assert(seq!['w', 'h', 'i', 'l', 'e'][0] != seq!['f', 'a', 'l', 's', 'e'][0]);
    assert(seq!['f', 'o', 'r'][0] != seq!['u', 's', 'e'][0]);
    assert(seq!['f', 'o', 'r'][0] != seq!['m', 'u', 't'][0]);
    assert(seq!['i', 'n'][0] != seq!['o', 'r'][0]);
    assert(seq!['i', 'n'][0] != seq!['a', 's'][0]);
    assert(seq!['l', 'o', 'o', 'p'][0] != seq!['t', 'r', 'u', 'e'][0]);
    assert(seq!['l', 'o', 'o', 'p'][0] != seq!['s', 'e', 'l', 'f'][0]);
    assert(seq!['l', 'o', 'o', 'p'][0] != seq!['m', 'o', 'v', 'e'][0]);
    assert(seq!['b', 'r', 'e', 'a', 'k'][0] != seq!['d', 'e', 'f', 'e', 'r'][0]);
    assert(seq!['b', 'r', 'e', 'a', 'k'][0] != seq!['a', 's', 'y', 'n', 'c'][0]);
    assert(seq!['b', 'r', 'e', 'a', 'k'][0] != seq!['f', 'a', 'l', 's', 'e'][0]);
    assert(seq!['d', 'e', 'f', 'e', 'r'][0] != seq!['a', 's', 'y', 'n', 'c'][0]);
    assert(seq!['d', 'e', 'f', 'e', 'r'][0] != seq!['f', 'a', 'l', 's', 'e'][0]);
    assert(seq!['r', 'e', 'g', 'i', 'o', 'n'][0] != seq!['p', 'u', 'b', 'l', 'i', 'c'][0]);
    assert(seq!['u', 's', 'e'][0] != seq!['m', 'u', 't'][0]);
    assert(seq!['a', 's', 'y', 'n', 'c'][0] != seq!['f', 'a', 'l', 's', 'e'][0]);
    assert(seq!['t', 'r', 'u', 'e'][0] != seq!['s', 'e', 'l', 'f'][0]);
    assert(seq!['t', 'r', 'u', 'e'][0] != seq!['m', 'o', 'v', 'e'][0]);
    assert(seq!['o', 'r'][0] != seq!['a', 's'][0]);
    assert(seq!['s', 'e', 'l', 'f'][0] != seq!['m', 'o', 'v', 'e'][0]);
    assert(seq!['f', 'n'].len() == 2);
    assert(seq!['l', 'e', 't'].len() == 3);
    assert(seq!['r', 'e', 't', 'u', 'r', 'n'].len() == 6);
    assert(seq!['s', 't', 'r', 'u', 'c', 't'].len() == 6);
    assert(seq!['e', 'n', 'u', 'm'].len() == 4);
    assert(seq!['e', 'x', 't', 'e', 'n', 'd'].len() == 6);
    assert(seq!['i', 'n', 't', 'e', 'r', 'f', 'a', 'c', 'e'].len() == 9);
    assert(seq!['m', 'a', 't', 'c', 'h'].len() == 5);
    assert(seq!['i', 'f'].len() == 2);
    assert(seq!['e', 'l', 's', 'e'].len() == 4);
    assert(seq!['w', 'h', 'i', 'l', 'e'].len() == 5);
    assert(seq!['f', 'o', 'r'].len() == 3);
    assert(seq!['i', 'n'].len() == 2);
    assert(seq!['l', 'o', 'o', 'p'].len() == 4);
    assert(seq!['b', 'r', 'e', 'a', 'k'].len() == 5);
    assert(seq!['c', 'o', 'n', 't', 'i', 'n', 'u', 'e'].len() == 8);
    assert(seq!['d', 'e', 'f', 'e', 'r'].len() == 5);
    assert(seq!['r', 'e', 'g', 'i', 'o', 'n'].len() == 6);
    assert(seq!['u', 's', 'e'].len() == 3);
    assert(seq!['p', 'u', 'b', 'l', 'i', 'c'].len() == 6);
    assert(seq!['a', 's', 'y', 'n', 'c'].len() == 5);
    assert(seq!['t', 'r', 'u', 'e'].len() == 4);
    assert(seq!['f', 'a', 'l', 's', 'e'].len() == 5);
    assert(seq!['o', 'r'].len() == 2);
    assert(seq!['a', 's'].len() == 2);
    assert(seq!['s', 'e', 'l', 'f'].len() == 4);
    assert(seq!['m', 'u', 't'].len() == 3);
    assert(seq!['m', 'o', 'v', 'e'].len() == 4);
    reveal_with_fuel(has_key, 30);
    reveal_with_fuel(keys_unique, 30);
    assert(keys_unique(keyword_table()));
    assert forall|i: int, j: int|
        0 <= i < j < keyword_table().len() implies keyword_table()[i].0
            != keyword_table()[j].0 by {
        lemma_keys_unique_distinct(keyword_table(), i, j);
    }
}

/// What every step of the scanner keeps: it reads at least one character
/// and no further than the end, the line never goes back, a step that
/// reports an error adds no token, and a token is the source text the step
/// read, on the line the step ends on; it is never `Eof`, and it is a
/// semicolon only where the text is `;` and the last token is not a
/// semicolon.
pub proof fn law_step_facts(src: Seq<char>, s: int, line: nat, last_semi: bool)
    requires
        0 <= s < src.len(),
    ensures
        ({
            let st = scan_step(src, s, line, last_semi);
            &&& s < st.end <= src.len()
            &&& line <= st.line
            &&& st.error is Some ==> st.token is None
            &&& st.token matches Some(t) ==> {
                &&& t.line == st.line
                &&& t.kind != TokenType::Eof
                &&& t.lexeme == src.subrange(s, st.end)
                &&& (t.kind == TokenType::Semicolon ==> !last_semi && t.lexeme.len() == 1 && t.lexeme[0] == ';')
            }
        }),
{
    reveal(scan_step);
    lemma_step_bounds(src, s, line, last_semi);
    let st = scan_step(src, s, line, last_semi);
    if src[s] == ';' {
        assert(src.subrange(s, s + 1)[0] == ';');
    }
    let e = scan_while(src, s + 1, word_chars());
    lemma_keyword_kind(src.subrange(s, e));
}

/// The lexemes of `tokens` occur in `src`, in order, each at a place of its
/// own, from `pos` on.
#[verifier::opaque]
pub open spec fn pieces_from(src: Seq<char>, tokens: Seq<TokenModel>, pos: int) -> bool
    decreases tokens.len(),
{
    tokens.len() == 0 || exists|a: int, b: int|
        pos <= a < b <= src.len() && tokens[0].lexeme == #[trigger] src.subrange(a, b)
            && pieces_from(src, tokens.drop_first(), b)
}

proof fn lemma_pieces_from_earlier(src: Seq<char>, tokens: Seq<TokenModel>, p: int, q: int)
    requires
        p <= q,
        pieces_from(src, tokens, q),
    ensures
        pieces_from(src, tokens, p),
{
    reveal(pieces_from);
    if tokens.len() > 0 {
        let (a, b) = choose|a: int, b: int|
            q <= a < b <= src.len() && tokens[0].lexeme == #[trigger] src.subrange(a, b)
                && pieces_from(src, tokens.drop_first(), b);
        assert(p <= a < b <= src.len() && tokens[0].lexeme == src.subrange(a, b)
            && pieces_from(src, tokens.drop_first(), b));
    }
}

/// No two semicolon tokens in a row.
pub open spec fn no_adjacent_semicolons(tokens: Seq<TokenModel>, last_semi: bool) -> bool {
    &&& (last_semi && tokens.len() > 0 ==> tokens[0].kind != TokenType::Semicolon)
    &&& forall|i: int|
        0 <= i < tokens.len() - 1 ==> !(#[trigger] tokens[i].kind == TokenType::Semicolon
            && tokens[i + 1].kind == TokenType::Semicolon)
}

/// The lines of `tokens` never go back, and lie between `lo` and `hi`.
pub open spec fn lines_ascend(tokens: Seq<TokenModel>, lo: nat, hi: nat) -> bool {
    &&& lo <= hi
    &&& forall|i: int, j: int|
        0 <= i <= j < tokens.len() ==> lo <= #[trigger] tokens[i].line <= #[trigger] tokens[j].line
            <= hi
}

/// One step of a run: a run from `pos` is the step's token and error, then
/// the run from where the step ends.
pub proof fn lemma_run_unfold(src: Seq<char>, pos: int, line: nat, last_semi: bool)
    requires
        0 <= pos < src.len(),
    ensures
        ({
            let r = scan_run(src, pos, line, last_semi);
            let st = scan_step(src, pos, line, last_semi);
            let rest = scan_run(src, st.end, st.line, semi_after(st, last_semi));
            &&& st.panics ==> r.tokens.len() == 0 && r.line == st.line && r.panics
            &&& !st.panics ==> {
                &&& r.tokens == option_seq(st.token) + rest.tokens
                &&& r.errors == option_seq(error_message(st)) + rest.errors
                &&& r.line == rest.line
                &&& r.panics == rest.panics
            }
        }),
{
}

/// A run that adds no token from `pos` on ends on the line it starts on or later.
proof fn lemma_run_line(src: Seq<char>, pos: int, line: nat, last_semi: bool)
    requires
        0 <= pos,
    ensures
        line <= scan_run(src, pos, line, last_semi).line,
    decreases src.len() - pos,
{
    if pos < src.len() {
        let st = scan_step(src, pos, line, last_semi);
        law_step_facts(src, pos, line, last_semi);
        lemma_run_unfold(src, pos, line, last_semi);
        if !st.panics {
            lemma_run_line(src, st.end, st.line, semi_after(st, last_semi));
        }
    }
}

/// No scan adds two semicolon tokens in a row, nor a semicolon right after a
/// semicolon token that was already there: a repeated `;` is an error.
pub proof fn law_no_adjacent_semicolons(src: Seq<char>, pos: int, line: nat, last_semi: bool)
    requires
        0 <= pos,
    ensures
        no_adjacent_semicolons(scan_run(src, pos, line, last_semi).tokens, last_semi),
    decreases src.len() - pos,
{
    if pos < src.len() {
        let r = scan_run(src, pos, line, last_semi);
        let st = scan_step(src, pos, line, last_semi);
        law_step_facts(src, pos, line, last_semi);
        lemma_run_unfold(src, pos, line, last_semi);
        if !st.panics {
            let next = semi_after(st, last_semi);
            let rest = scan_run(src, st.end, st.line, next);
            law_no_adjacent_semicolons(src, st.end, st.line, next);
            if st.token is Some {
                assert forall|i: int| 0 <= i < r.tokens.len() - 1 implies !(
                #[trigger] r.tokens[i].kind == TokenType::Semicolon && r.tokens[i + 1].kind
                    == TokenType::Semicolon) by {
                    if i > 0 {
                        assert(r.tokens[i] == rest.tokens[i - 1]);
                        assert(r.tokens[i + 1] == rest.tokens[i]);
                    } else {
                        assert(r.tokens[1] == rest.tokens[0]);
                    }
                }
            } else {
                assert(r.tokens =~= rest.tokens);
            }
        }
    }
}

/// The line numbers of the tokens a scan adds never go back, start no lower
/// than the line the scan starts on, and end no higher than the line it
/// ends on.
pub proof fn law_lines_ascend(src: Seq<char>, pos: int, line: nat, last_semi: bool)
    requires
        0 <= pos,
    ensures
        lines_ascend(
            scan_run(src, pos, line, last_semi).tokens,
            line,
            scan_run(src, pos, line, last_semi).line,
        ),
    decreases src.len() - pos,
{
    if pos < src.len() {
        let r = scan_run(src, pos, line, last_semi);
        let st = scan_step(src, pos, line, last_semi);
        law_step_facts(src, pos, line, last_semi);
        lemma_run_unfold(src, pos, line, last_semi);
        if !st.panics {
            let next = semi_after(st, last_semi);
            let rest = scan_run(src, st.end, st.line, next);
            law_lines_ascend(src, st.end, st.line, next);
            if st.token is Some {
                assert forall|i: int, j: int|
                    0 <= i <= j < r.tokens.len() implies line <= #[trigger] r.tokens[i].line
                        <= #[trigger] r.tokens[j].line <= r.line by {
                    if i > 0 {
                        assert(r.tokens[i] == rest.tokens[i - 1]);
                        assert(r.tokens[j] == rest.tokens[j - 1]);
                    } else if j > 0 {
                        assert(r.tokens[j] == rest.tokens[j - 1]);
                    } else if rest.tokens.len() == 0 {
                        lemma_run_line(src, st.end, st.line, next);
                    } else {
                        assert(rest.tokens[0].line <= rest.tokens[0].line);
                    }
                }
            } else {
                assert(r.tokens =~= rest.tokens);
            }
        }
    } else {
    }
}

/// A scan never reads an `Eof` token from the source (the only `Eof` is the
/// one `scan_tokens` adds at the end), and each semicolon token it adds is
/// the text `;`.
pub proof fn law_token_kinds(src: Seq<char>, pos: int, line: nat, last_semi: bool)
    requires
        0 <= pos,
    ensures
        forall|i: int|
            0 <= i < scan_run(src, pos, line, last_semi).tokens.len() ==> {
                let t = #[trigger] scan_run(src, pos, line, last_semi).tokens[i];
                &&& t.kind != TokenType::Eof
                &&& t.kind == TokenType::Semicolon ==> t.lexeme.len() == 1 && t.lexeme[0] == ';'
            },
    decreases src.len() - pos,
{
    if pos < src.len() {
        let r = scan_run(src, pos, line, last_semi);
        let st = scan_step(src, pos, line, last_semi);
        law_step_facts(src, pos, line, last_semi);
        lemma_run_unfold(src, pos, line, last_semi);
        if !st.panics {
            let next = semi_after(st, last_semi);
            let rest = scan_run(src, st.end, st.line, next);
            law_token_kinds(src, st.end, st.line, next);
            if st.token is Some {
                assert forall|i: int| 0 < i < r.tokens.len() implies r.tokens[i] == rest.tokens[i
                    - 1] by {}
            } else {
                assert(r.tokens =~= rest.tokens);
            }
        }
    }
}

/// Each token a scan adds is a piece of the source text, after the piece of
/// the token before it: the scanner reads the source from left to right and
/// adds no text of its own.
pub proof fn law_tokens_are_source_text(src: Seq<char>, pos: int, line: nat, last_semi: bool)
    requires
        0 <= pos,
    ensures
        pieces_from(src, scan_run(src, pos, line, last_semi).tokens, pos),
    decreases src.len() - pos,
{
    reveal(pieces_from);
    if pos < src.len() {
        let r = scan_run(src, pos, line, last_semi);
        let st = scan_step(src, pos, line, last_semi);
        law_step_facts(src, pos, line, last_semi);
        lemma_run_unfold(src, pos, line, last_semi);
        if !st.panics {
            let next = semi_after(st, last_semi);
            let rest = scan_run(src, st.end, st.line, next);
            law_tokens_are_source_text(src, st.end, st.line, next);
            if st.token is Some {
                assert(r.tokens.drop_first() =~= rest.tokens);
                assert(pos <= pos < st.end <= src.len() && r.tokens[0].lexeme == src.subrange(
                    pos,
                    st.end,
                ) && pieces_from(src, r.tokens.drop_first(), st.end));
            } else {
                assert(r.tokens =~= rest.tokens);
                lemma_pieces_from_earlier(src, rest.tokens, pos, st.end);
            }
        }
    }
}

/// The tokens that `scan_tokens` adds end with the one `Eof` token, and hold
/// no other.
pub proof fn law_single_eof(src: Seq<char>, pos: int, line: nat, last_semi: bool)
    requires
        0 <= pos,
    ensures
        ({
            let r = scan_run(src, pos, line, last_semi);
            let added = r.tokens + seq![eof_token(r.line)];
            &&& added.last() == eof_token(r.line)
            &&& added.last().kind == TokenType::Eof
            &&& forall|i: int| 0 <= i < added.len() - 1 ==> (#[trigger] added[i]).kind != TokenType::Eof
        }),
{
    law_token_kinds(src, pos, line, last_semi);
    let r = scan_run(src, pos, line, last_semi);
    let added = r.tokens + seq![eof_token(r.line)];
    assert forall|i: int| 0 <= i < added.len() - 1 implies (#[trigger] added[i]).kind
        != TokenType::Eof by {
        assert(added[i] == r.tokens[i]);
    }
}

/// Every message starts with the word `Line`.
pub open spec fn starts_with_line(m: Seq<char>) -> bool {
    m.len() >= 5 && m.subrange(0, 5) == "Line "@
}

proof fn lemma_message_starts_with_line(kind: ScanErrorKind, line: nat)
    ensures
        starts_with_line(message(kind, line)),
{
    reveal_strlit("Line ");
    let m = message(kind, line);
    assert(m.subrange(0, 5) =~= "Line "@);
}

/// Every error message a scan reports starts with `Line`.
pub proof fn lemma_run_errors(src: Seq<char>, pos: int, line: nat, last_semi: bool)
    requires
        0 <= pos,
    ensures
        forall|i: int|
            0 <= i < scan_run(src, pos, line, last_semi).errors.len() ==> starts_with_line(
                #[trigger] scan_run(src, pos, line, last_semi).errors[i],
            ),
    decreases src.len() - pos,
{
    if pos < src.len() {
        let r = scan_run(src, pos, line, last_semi);
        let st = scan_step(src, pos, line, last_semi);
        law_step_facts(src, pos, line, last_semi);
        if st.error is Some {
            lemma_message_starts_with_line(st.error->0, st.line);
        }
        lemma_run_unfold(src, pos, line, last_semi);
        if !st.panics {
            let next = semi_after(st, last_semi);
            let rest = scan_run(src, st.end, st.line, next);
            lemma_run_errors(src, st.end, st.line, next);
            assert forall|i: int| 0 <= i < r.errors.len() implies starts_with_line(
                #[trigger] r.errors[i],
            ) by {
                if st.error is Some {
                    if i > 0 {
                        assert(r.errors[i] == rest.errors[i - 1]);
                    }
                } else {
                    assert(r.errors[i] == rest.errors[i]);
                }
            }
        } else {
            assert(r.errors.len() == 0) by {
                reveal_with_fuel(scan_run, 1);
            }
        }
    }
}

proof fn lemma_join_errors(errors: Seq<Seq<char>>)
    requires
        errors.len() > 0,
        forall|i: int| 0 <= i < errors.len() ==> starts_with_line(#[trigger] errors[i]),
    ensures
        starts_with_line(join_errors(errors)),
        join_errors(errors).last() == '\n',
    decreases errors.len(),
{
    let j = join_errors(errors);
    let front = join_errors(errors.drop_last());
    if errors.len() == 1 {
        assert(front.len() == 0);
        assert(j =~= errors[0] + seq!['\n']);
        assert(j.subrange(0, 5) =~= errors[0].subrange(0, 5));
    } else {
        assert(starts_with_line(errors.drop_last()[0]));
        lemma_join_errors(errors.drop_last());
        assert(j.subrange(0, 5) =~= front.subrange(0, 5));
    }
}

/// The text `scan_tokens` reports where a scan finds errors starts with
/// `Line` (the line of the first error) and ends with a line break.
pub proof fn law_error_text(src: Seq<char>, pos: int, line: nat, last_semi: bool)
    requires
        0 <= pos,
        scan_run(src, pos, line, last_semi).errors.len() > 0,
    ensures
        starts_with_line(join_errors(scan_run(src, pos, line, last_semi).errors)),
        join_errors(scan_run(src, pos, line, last_semi).errors).last() == '\n',
{
    lemma_run_errors(src, pos, line, last_semi);
    lemma_join_errors(scan_run(src, pos, line, last_semi).errors);
}

/// Where a step would index past the end of the source: on a character
/// literal whose backslash is the last character.
pub proof fn lemma_step_panics(src: Seq<char>, s: int, line: nat, last_semi: bool)
    requires
        0 <= s < src.len(),
    ensures
        scan_step(src, s, line, last_semi).panics <==> (src[s] == '\'' && s + 2 == src.len()
            && src[s + 1] == '\\'),
{
    reveal(scan_step);
}

/// The source ends with a quote and a backslash.
pub open spec fn ends_in_dangling_escape(src: Seq<char>) -> bool {
    src.len() >= 2 && src[src.len() - 2] == '\'' && src[src.len() - 1] == '\\'
}

/// A scan can only index past the end of the source where the source ends
/// with the start of an escape in a character literal (a quote and a
/// backslash); on every other source a scan runs to the end.
pub proof fn law_panics_only_on_dangling_escape(
    src: Seq<char>,
    pos: int,
    line: nat,
    last_semi: bool,
)
    requires
        0 <= pos,
    ensures
        scan_run(src, pos, line, last_semi).panics ==> ends_in_dangling_escape(src),
    decreases src.len() - pos,
{
    if pos < src.len() {
        let st = scan_step(src, pos, line, last_semi);
        law_step_facts(src, pos, line, last_semi);
        lemma_step_panics(src, pos, line, last_semi);
        lemma_run_unfold(src, pos, line, last_semi);
        if !st.panics {
            law_panics_only_on_dangling_escape(src, st.end, st.line, semi_after(st, last_semi));
        }
    }
}

/// The line count of a text is the number of line-break characters in it;
/// no other character moves the line on.
pub proof fn law_newlines_count(s: Seq<char>)
    ensures
        newlines(s) == s.filter(|c: char| c == '\n').len(),
    decreases s.len(),
{
    reveal(Seq::filter);
    if s.len() > 0 {
        law_newlines_count(s.drop_last());
    }
}

/// The joined error text keeps the errors in the order they were found,
/// each followed by a line break: joining two lists one after the other is
/// joining the first and then the second, and one error joins to itself
/// and a line break.
pub proof fn law_join_errors_in_order(a: Seq<Seq<char>>, b: Seq<Seq<char>>, m: Seq<char>)
    ensures
        join_errors(a + b) == join_errors(a) + join_errors(b),
        join_errors(seq![m]) == m + seq!['\n'],
    decreases b.len(),
{
    assert(seq![m].drop_last() =~= Seq::<Seq<char>>::empty());
    assert(join_errors(Seq::<Seq<char>>::empty()) == Seq::<char>::empty());
    assert(join_errors(seq![m]) =~= m + seq!['\n']);
    if b.len() == 0 {
        assert(a + b =~= a);
        assert(join_errors(a) + join_errors(b) =~= join_errors(a));
    } else {
        law_join_errors_in_order(a, b.drop_last(), m);
        assert((a + b).drop_last() =~= a + b.drop_last());
        assert(join_errors(a + b) =~= join_errors(a) + join_errors(b));
    }
}

} // verus!
