//! How a scan without errors lays its tokens over the source: every token is
//! the source text at its place, the text between tokens is blank space and
//! `--` comments, and each token's line is the start line plus the line
//! breaks before it.
use vstd::prelude::*;
use crate::ast::laws::{lemma_keyword_kind, lemma_run_unfold, law_step_facts};
use crate::ast::lexing::{
    lemma_scan_while_bounds, lemma_scan_while_exact, newlines, not_newline, not_quote,
    option_seq, scan_run, scan_step, scan_while, semi_after, word_chars,
};
use crate::ast::tokens::{TokenModel, TokenType};

verus! {

/// A blank character: space, carriage return, tab or line break.
pub open spec fn is_blank(c: char) -> bool {
    c == ' ' || c == '\r' || c == '\t' || c == '\n'
}

/// Text the scanner passes over without a token or an error: blank
/// characters, and `--` comments that run up to a line break or the end.
pub open spec fn is_filler(s: Seq<char>) -> bool
    decreases s.len(),
{
    if s.len() == 0 {
        true
    } else if is_blank(s[0]) {
        is_filler(s.drop_first())
    } else if s.len() >= 2 && s[0] == '-' && s[1] == '-' {
        let k = scan_while(s, 2, not_newline());
        proof {
            lemma_scan_while_bounds(s, 2, not_newline());
        }
        is_filler(s.skip(k))
    } else {
        false
    }
}

/// The line breaks that a token's own text moves the scanner on by: those
/// inside a string or format string (the others never hold one that counts).
pub open spec fn text_newlines(t: TokenModel) -> nat {
    if t.kind == TokenType::StringLit || t.kind == TokenType::FStringLit {
        newlines(t.lexeme)
    } else {
        0
    }
}

/// The text after the last token: filler, or filler and then an unterminated
/// format string `f"...` (which the scanner drops without an error).
pub open spec fn is_trailer(s: Seq<char>) -> bool {
    ||| is_filler(s)
    ||| exists|k: int|
        0 <= k && k + 2 <= s.len() && is_filler(#[trigger] s.take(k)) && s[k] == 'f' && s[k + 1]
            == '"' && (forall|i: int| k + 2 <= i < s.len() ==> s[i] != '"')
}

/// `src` from `pos` on holds `tokens`, each after a stretch of filler, each
/// being the source text at its place, and each on `line` plus the line
/// breaks read since; after the last token comes a trailer, and the scan
/// ends on `end_line`.
#[verifier::opaque]
pub open spec fn laid_out(
    src: Seq<char>,
    tokens: Seq<TokenModel>,
    pos: int,
    line: nat,
    end_line: nat,
) -> bool
    decreases tokens.len(),
{
    if tokens.len() == 0 {
        &&& 0 <= pos <= src.len()
        &&& is_trailer(src.subrange(pos, src.len() as int))
        &&& end_line == line + newlines(src.subrange(pos, src.len() as int))
    } else {
        exists|a: int|
            {
                &&& pos <= a
                &&& a + tokens[0].lexeme.len() <= src.len()
                &&& is_filler(#[trigger] src.subrange(pos, a))
                &&& tokens[0].lexeme == src.subrange(a, a + tokens[0].lexeme.len())
                &&& tokens[0].line == line + newlines(src.subrange(pos, a)) + text_newlines(
                    tokens[0],
                )
                &&& laid_out(
                    src,
                    tokens.drop_first(),
                    a + tokens[0].lexeme.len(),
                    tokens[0].line as nat,
                    end_line,
                )
            }
    }
}

/// Line breaks add up over concatenation.
pub proof fn lemma_newlines_concat(a: Seq<char>, b: Seq<char>)
    ensures
        newlines(a + b) == newlines(a) + newlines(b),
    decreases b.len(),
{
    if b.len() > 0 {
        assert((a + b).drop_last() =~= a + b.drop_last());
        lemma_newlines_concat(a, b.drop_last());
    } else {
        assert(a + b =~= a);
    }
}

/// A scan passes every character it keeps, and stops at the end or at a
/// character it does not keep.
pub proof fn lemma_scan_while_kept(src: Seq<char>, i: int, keep: spec_fn(char) -> bool)
    requires
        0 <= i <= src.len(),
    ensures
        forall|k: int| i <= k < scan_while(src, i, keep) ==> #[trigger] keep(src[k]),
        scan_while(src, i, keep) == src.len() || !keep(src[scan_while(src, i, keep)]),
    decreases src.len() - i,
{
    if i < src.len() && keep(src[i]) {
        lemma_scan_while_kept(src, i + 1, keep);
    }
}

proof fn lemma_filler_prepend_blank(c: char, f: Seq<char>)
    requires
        is_blank(c),
        is_filler(f),
    ensures
        is_filler(seq![c] + f),
{
    assert((seq![c] + f).drop_first() =~= f);
}

proof fn lemma_filler_prepend_comment(c: Seq<char>, f: Seq<char>)
    requires
        c.len() >= 2,
        c[0] == '-',
        c[1] == '-',
        forall|k: int| 2 <= k < c.len() ==> c[k] != '\n',
        f.len() == 0 || f[0] == '\n',
        is_filler(f),
    ensures
        is_filler(c + f),
{
    let s = c + f;
    assert forall|k: int| 2 <= k < c.len() implies #[trigger] not_newline()(s[k]) by {
        assert(s[k] == c[k]);
    }
    lemma_scan_while_exact(s, 2, c.len() as int, not_newline());
    assert(s.skip(c.len() as int) =~= f);
}

/// The ways a step passes over text without a token or an error: a blank
/// character, a `--` comment, or an unterminated format string at the end.
proof fn lemma_skip_step(src: Seq<char>, s: int, line: nat, last_semi: bool)
    requires
        0 <= s < src.len(),
        scan_step(src, s, line, last_semi).token is None,
        scan_step(src, s, line, last_semi).error is None,
        !scan_step(src, s, line, last_semi).panics,
    ensures
        ({
            let st = scan_step(src, s, line, last_semi);
            ||| is_blank(src[s]) && st.end == s + 1 && st.line == line + newlines(
                src.subrange(s, s + 1),
            )
            ||| s + 2 <= src.len() && src[s] == '-' && src[s + 1] == '-' && st.end == scan_while(
                src,
                s + 2,
                not_newline(),
            ) && st.line == line
            ||| s + 2 <= src.len() && src[s] == 'f' && src[s + 1] == '"' && st.end == src.len()
                && st.line == line + newlines(src.subrange(s + 2, src.len() as int)) && (forall|
                i: int,
            |
                s + 2 <= i < src.len() ==> src[i] != '"')
        }),
{
    reveal(scan_step);
    assert(src.subrange(s, s + 1) =~= seq![src[s]]);
    lemma_newlines_single(src[s]);
    let e = scan_while(src, s + 1, word_chars());
    lemma_scan_while_bounds(src, s + 1, word_chars());
    if src.subrange(s, e) == seq!['f'] {
        assert(src.subrange(s, e).len() == 1);
        assert(src.subrange(s, e)[0] == src[s]);
    }
    if s + 2 <= src.len() {
        lemma_scan_while_bounds(src, s + 2, not_quote());
        lemma_scan_while_kept(src, s + 2, not_quote());
        assert forall|i: int| s + 2 <= i < scan_while(src, s + 2, not_quote()) implies src[i]
            != '"' by {
            assert(not_quote()(src[i]));
        }
    }
}

/// A token's line is the step's start line plus the line breaks in its own
/// text, where it is a string or a format string.
proof fn lemma_token_line(src: Seq<char>, s: int, line: nat, last_semi: bool)
    requires
        0 <= s < src.len(),
    ensures
        scan_step(src, s, line, last_semi).token matches Some(t) ==> t.line == line
            + text_newlines(t),
{
    reveal(scan_step);
    let e = scan_while(src, s + 1, word_chars());
    lemma_scan_while_bounds(src, s + 1, word_chars());
    lemma_keyword_kind(src.subrange(s, e));
    if src[s] == '"' {
        lemma_string_line(src, s, line);
    }
    if src.subrange(s, e) == seq!['f'] {
        assert(src.subrange(s, e).len() == 1);
        assert(src.subrange(s, e)[0] == src[s]);
        if s + 2 <= src.len() && src[s + 1] == '"' {
            lemma_fstring_line(src, s, line);
        }
    }
}

/// A blank character or a comment in front of a layout keeps it a layout.
proof fn lemma_laid_out_prepend(
    src: Seq<char>,
    tokens: Seq<TokenModel>,
    pos: int,
    mid: int,
    line: nat,
    mid_line: nat,
    end_line: nat,
)
    requires
        0 <= pos < mid <= src.len(),
        laid_out(src, tokens, mid, mid_line, end_line),
        mid_line == line + newlines(src.subrange(pos, mid)),
        (mid == pos + 1 && is_blank(src[pos])) || (mid - pos >= 2 && src[pos] == '-' && src[pos
            + 1] == '-' && (forall|k: int| pos + 2 <= k < mid ==> src[k] != '\n') && (mid
            == src.len() || src[mid] == '\n')),
    ensures
        laid_out(src, tokens, pos, line, end_line),
{
    reveal(laid_out);
    let seg = src.subrange(pos, mid);
    let is_comment = !(mid == pos + 1 && is_blank(src[pos]));
    // Prepending the segment to filler that starts where it ends.
    assert forall|b: int| mid <= b <= src.len() && is_filler(src.subrange(mid, b)) implies is_filler(
        #[trigger] src.subrange(pos, b),
    ) by {
        assert(src.subrange(pos, b) =~= seg + src.subrange(mid, b));
        if is_comment {
            lemma_filler_prepend_comment(seg, src.subrange(mid, b));
        } else {
            assert(seg =~= seq![src[pos]]);
            lemma_filler_prepend_blank(src[pos], src.subrange(mid, b));
        }
    }
    if tokens.len() == 0 {
        let tail_mid = src.subrange(mid, src.len() as int);
        let tail = src.subrange(pos, src.len() as int);
        assert(tail =~= seg + tail_mid);
        lemma_newlines_concat(seg, tail_mid);
        if is_filler(tail_mid) {
            assert(is_filler(src.subrange(pos, src.len() as int)));
        } else {
            let k = choose|k: int|
                0 <= k && k + 2 <= tail_mid.len() && is_filler(#[trigger] tail_mid.take(k))
                    && tail_mid[k] == 'f' && tail_mid[k + 1] == '"' && (forall|i: int|
                    k + 2 <= i < tail_mid.len() ==> tail_mid[i] != '"');
            let k2 = k + seg.len();
            assert(tail_mid.take(k) =~= src.subrange(mid, mid + k));
            assert(tail.take(k2) =~= src.subrange(pos, mid + k));
            assert(tail[k2] == tail_mid[k]);
            assert(tail[k2 + 1] == tail_mid[k + 1]);
            assert forall|i: int| k2 + 2 <= i < tail.len() implies tail[i] != '"' by {
                assert(tail[i] == tail_mid[i - seg.len()]);
            }
            assert(is_filler(tail.take(k2)));
        }
    } else {
        let a = choose|a: int|
            {
                &&& mid <= a
                &&& a + tokens[0].lexeme.len() <= src.len()
                &&& is_filler(#[trigger] src.subrange(mid, a))
                &&& tokens[0].lexeme == src.subrange(a, a + tokens[0].lexeme.len())
                &&& tokens[0].line == mid_line + newlines(src.subrange(mid, a)) + text_newlines(
                    tokens[0],
                )
                &&& laid_out(
                    src,
                    tokens.drop_first(),
                    a + tokens[0].lexeme.len(),
                    tokens[0].line as nat,
                    end_line,
                )
            };
        assert(src.subrange(pos, a) =~= seg + src.subrange(mid, a));
        lemma_newlines_concat(seg, src.subrange(mid, a));
        assert(is_filler(src.subrange(pos, a)));
    }
}

/// A scan that reports no error and runs to the end lays its tokens over
/// the source: each token is the source text at its place, the text before
/// it since the last token is only blank space and `--` comments, and its
/// line is the line the scan started on plus the line breaks read before it
/// (and, for a string or format string, in it); after the last token there
/// is only such text, or an unterminated format string, which is dropped.
pub proof fn law_layout(src: Seq<char>, pos: int, line: nat, last_semi: bool)
    requires
        0 <= pos <= src.len(),
        scan_run(src, pos, line, last_semi).errors.len() == 0,
        !scan_run(src, pos, line, last_semi).panics,
    ensures
        laid_out(
            src,
            scan_run(src, pos, line, last_semi).tokens,
            pos,
            line,
            scan_run(src, pos, line, last_semi).line,
        ),
    decreases src.len() - pos,
{
    reveal(laid_out);
    let r = scan_run(src, pos, line, last_semi);
    if pos == src.len() {
        assert(src.subrange(pos, src.len() as int) =~= Seq::<char>::empty());
        assert(is_filler(src.subrange(pos, src.len() as int)));
    } else {
        let st = scan_step(src, pos, line, last_semi);
        law_step_facts(src, pos, line, last_semi);
        lemma_run_unfold(src, pos, line, last_semi);
        let next = semi_after(st, last_semi);
        let rest = scan_run(src, st.end, st.line, next);
        assert(st.error is None);
        assert(rest.errors =~= r.errors);
        law_layout(src, st.end, st.line, next);
        match st.token {
            Some(t) => {
                lemma_token_line(src, pos, line, last_semi);
                assert(r.tokens[0] == t);
                assert(r.tokens.drop_first() =~= rest.tokens);
                assert(src.subrange(pos, pos) =~= Seq::<char>::empty());
                assert(t.lexeme.len() == st.end - pos);
                assert(is_filler(src.subrange(pos, pos)));
                assert(pos + t.lexeme.len() == st.end);
            },
            None => {
                assert(r.tokens =~= rest.tokens);
                lemma_skip_step(src, pos, line, last_semi);
                if is_blank(src[pos]) && st.end == pos + 1 {
                    lemma_laid_out_prepend(src, r.tokens, pos, st.end, line, st.line, r.line);
                } else if src[pos] == '-' && src[pos + 1] == '-' && st.end == scan_while(
                    src,
                    pos + 2,
                    not_newline(),
                ) {
                    lemma_scan_while_bounds(src, pos + 2, not_newline());
                    lemma_scan_while_kept(src, pos + 2, not_newline());
                    assert forall|k: int| pos + 2 <= k < st.end implies src[k] != '\n' by {
                        assert(not_newline()(src[k]));
                    }
                    assert forall|k: int| 0 <= k < st.end - pos implies src.subrange(
                        pos,
                        st.end,
                    )[k] != '\n' by {
                        assert(src.subrange(pos, st.end)[k] == src[pos + k]);
                    }
                    lemma_no_newlines(src.subrange(pos, st.end));
                    lemma_laid_out_prepend(src, r.tokens, pos, st.end, line, st.line, r.line);
                } else {
                    // An unterminated format string ends the source.
                    let tail = src.subrange(pos, src.len() as int);
                    assert(rest.tokens.len() == 0);
                    assert(tail.take(0) =~= Seq::<char>::empty());
                    assert(is_filler(tail.take(0)));
                    assert forall|i: int| 2 <= i < tail.len() implies tail[i] != '"' by {
                        assert(tail[i] == src[pos + i]);
                    }
                    assert(tail =~= seq![src[pos], src[pos + 1]] + src.subrange(
                        pos + 2,
                        src.len() as int,
                    ));
                    lemma_newlines_concat(
                        seq![src[pos], src[pos + 1]],
                        src.subrange(pos + 2, src.len() as int),
                    );
                    lemma_no_newlines(seq![src[pos], src[pos + 1]]);
                    assert(src.subrange(st.end, src.len() as int) =~= Seq::<char>::empty());
                }
            },
        }
    }
}

/// Text with no line break in it counts none.
pub proof fn lemma_no_newlines(s: Seq<char>)
    requires
        forall|k: int| 0 <= k < s.len() ==> s[k] != '\n',
    ensures
        newlines(s) == 0,
    decreases s.len(),
{
    if s.len() > 0 {
        lemma_no_newlines(s.drop_last());
    }
}

/// A single character counts one line break where it is one.
pub proof fn lemma_newlines_single(c: char)
    ensures
        newlines(seq![c]) == if c == '\n' {
            1nat
        } else {
            0nat
        },
{
    assert(seq![c].drop_last() =~= Seq::<char>::empty());
    assert(newlines(Seq::<char>::empty()) == 0);
    assert(seq![c].last() == c);
}

/// A string token's line is the start line plus the line breaks in its text.
proof fn lemma_string_line(src: Seq<char>, s: int, line: nat)
    requires
        0 <= s < src.len(),
        src[s] == '"',
    ensures
        crate::ast::lexing::scan_string(src, s, line).token matches Some(t) ==> t.line == line
            + newlines(t.lexeme),
{
    let j = scan_while(src, s + 1, not_quote());
    lemma_scan_while_bounds(src, s + 1, not_quote());
    lemma_scan_while_kept(src, s + 1, not_quote());
    if j < src.len() {
        let mid = src.subrange(s + 1, j);
        assert(src.subrange(s, j + 1) =~= seq![src[s]] + mid + seq![src[j]]);
        lemma_newlines_concat(seq![src[s]] + mid, seq![src[j]]);
        lemma_newlines_concat(seq![src[s]], mid);
        lemma_newlines_single(src[s]);
        lemma_newlines_single(src[j]);
    }
}

/// A format string token's line is the start line plus the line breaks in
/// its text.
proof fn lemma_fstring_line(src: Seq<char>, s: int, line: nat)
    requires
        0 <= s,
        s + 2 <= src.len(),
        src[s] == 'f',
        src[s + 1] == '"',
    ensures
        crate::ast::lexing::scan_fstring(src, s, line).token matches Some(t) ==> t.line == line
            + newlines(t.lexeme),
{
    let j = scan_while(src, s + 2, not_quote());
    lemma_scan_while_bounds(src, s + 2, not_quote());
    lemma_scan_while_kept(src, s + 2, not_quote());
    if j < src.len() {
        let mid = src.subrange(s + 2, j);
        let head = seq![src[s], src[s + 1]];
        assert(src.subrange(s, j + 1) =~= head + mid + seq![src[j]]);
        lemma_newlines_concat(head + mid, seq![src[j]]);
        lemma_newlines_concat(head, mid);
        lemma_no_newlines(head);
        lemma_newlines_single(src[j]);
    }
}

} // verus!
