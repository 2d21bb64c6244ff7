//! Laws of the lexer: the shape of what one read gives, where an error
//! points, and how lines and columns count the input.
use crate::synq::lexer::{
    is_alpha, is_digit, is_index_byte, is_word_byte, keyword_type, lemma_lex_step_progress,
    lemma_skip_bounds, lex_all, lex_step,
    punct_type, scan_index_spec, scan_word_spec, LexStep, Lexed, TokenType,
};
use crate::synq::scanner::{
    bump_nl_state, bump_state, is_blank, lemma_skip_block_comment_bounds,
    lemma_skip_line_comment_bounds, skip_block_comment, skip_line_comment, skip_spec, ScanState,
};
use crate::synq::lexer::{lemma_skip_stops, start_state};
use crate::text::{
    first_newline, lemma_first_newline_bounds, lemma_first_newline_first, lines, nth_line, strip_cr,
};
use vstd::prelude::*;
use vstd::utf8::{decode_utf8, encode_utf8, is_ascii_chars, is_ascii_chars_encode_utf8};

verus! {

proof fn lemma_index_run(b: Seq<u8>, s: ScanState)
    requires
        0 <= s.pos <= b.len(),
    ensures
        forall|k: int| s.pos <= k < scan_index_spec(b, s).pos ==> is_index_byte(#[trigger] b[k]),
        scan_index_spec(b, s).pos == b.len() || !is_index_byte(b[scan_index_spec(b, s).pos]),
    decreases b.len() - s.pos,
{
    if s.pos < b.len() && is_index_byte(b[s.pos]) {
        lemma_index_run(b, bump_state(s));
    }
}

proof fn lemma_word_run(b: Seq<u8>, s: ScanState)
    requires
        0 <= s.pos <= b.len(),
    ensures
        forall|k: int| s.pos <= k < scan_word_spec(b, s).pos ==> is_word_byte(#[trigger] b[k]),
        scan_word_spec(b, s).pos == b.len() || !is_word_byte(b[scan_word_spec(b, s).pos]),
    decreases b.len() - s.pos,
{
    if s.pos < b.len() && is_word_byte(b[s.pos]) {
        lemma_word_run(b, bump_state(s));
    }
}

/// Law: what one read gives, by the first byte after the blanks and
/// comments. A token starts there, at the line and column reached there,
/// and ends where the read stops: a line feed is `Newline` of one byte; a
/// digit starts an `Index` that runs over all the number bytes that follow;
/// a letter or `_` starts a word that runs over all the word bytes that
/// follow, of the kind its text names; one of `@ = { } ( ) * . / "` is a
/// token of that byte alone; at the end of input the token is `Eof` and
/// empty. An error names the byte there, at that line and column, and
/// happens only for a byte that starts no token.
pub proof fn law_token_shape(b: Seq<u8>, s: ScanState)
    requires
        0 <= s.pos <= b.len(),
    ensures
        ({
            let s0 = skip_spec(b, s);
            let (r, s1) = lex_step(b, s);
            &&& r matches LexStep::Tok { typ, start, end, line, col } ==> {
                &&& start == s0.pos
                &&& end == s1.pos
                &&& line == s0.line
                &&& col == s0.col
                &&& (typ == TokenType::Eof <==> start == b.len())
                &&& (start == b.len() ==> end == start)
                &&& (start < b.len() && b[start] == 10u8 ==> typ == TokenType::Newline && end == start
                    + 1)
                &&& (start < b.len() && is_digit(b[start]) ==> {
                    &&& typ == TokenType::Index
                    &&& forall|k: int| start <= k < end ==> is_index_byte(#[trigger] b[k])
                    &&& (end == b.len() || !is_index_byte(b[end]))
                })
                &&& (start < b.len() && (is_alpha(b[start]) || b[start] == 95u8) ==> {
                    &&& typ == keyword_type(decode_utf8(b.subrange(start, end)))
                    &&& forall|k: int| start <= k < end ==> is_word_byte(#[trigger] b[k])
                    &&& (end == b.len() || !is_word_byte(b[end]))
                })
                &&& (start < b.len() && punct_type(b[start]) is Some ==> typ == punct_type(
                    b[start],
                )->0 && end == start + 1)
            }
            &&& r matches LexStep::Fail { c, line, col } ==> {
                &&& s0.pos < b.len()
                &&& b[s0.pos] == c
                &&& line == s0.line
                &&& col == s0.col
                &&& punct_type(c) is None
                &&& c != 10u8 && !is_digit(c) && !is_alpha(c) && c != 95u8 && c != 62u8 && c != 60u8
            }
        }),
{
    lemma_lex_step_progress(b, s);
    lemma_skip_bounds(b, s);
    let s0 = skip_spec(b, s);
    if s0.pos < b.len() {
        let c = b[s0.pos];
        if is_digit(c) {
            lemma_index_run(b, s0);
        } else if is_alpha(c) || c == 95u8 {
            lemma_word_run(b, s0);
        }
    }
}

/// The number of line feeds before offset `p`.
pub open spec fn newlines_before(b: Seq<u8>, p: int) -> int
    decreases p,
{
    if p <= 0 {
        0
    } else {
        newlines_before(b, p - 1) + if b[p - 1] == 10u8 {
            1int
        } else {
            0int
        }
    }
}

/// The offset at which the line holding offset `p` starts.
pub open spec fn line_start(b: Seq<u8>, p: int) -> int
    decreases p,
{
    if p <= 0 {
        0
    } else if b[p - 1] == 10u8 {
        p
    } else {
        line_start(b, p - 1)
    }
}

/// A state whose line counts the line feeds before it and whose column is
/// its offset from the start of its line.
pub open spec fn counted(b: Seq<u8>, s: ScanState) -> bool {
    s.line == newlines_before(b, s.pos) && s.col == s.pos - line_start(b, s.pos)
}

/// Every `/*` comment ends before the next line feed (or holds none up to
/// the end of input).
pub open spec fn block_comments_on_one_line(b: Seq<u8>) -> bool {
    forall|t: ScanState|
        2 <= t.pos <= b.len() && b[t.pos - 2] == 47u8 && b[t.pos - 1] == 42u8 ==> forall|k: int|
            t.pos <= k < (#[trigger] skip_block_comment(b, t)).pos ==> b[k] != 10u8
}

proof fn lemma_bump_counted(b: Seq<u8>, s: ScanState)
    requires
        counted(b, s),
        0 <= s.pos < b.len(),
    ensures
        b[s.pos] != 10u8 ==> counted(b, bump_state(s)),
        b[s.pos] == 10u8 ==> counted(b, bump_nl_state(s)),
{
}

proof fn lemma_line_comment_counted(b: Seq<u8>, s: ScanState)
    requires
        counted(b, s),
        0 <= s.pos <= b.len(),
    ensures
        counted(b, skip_line_comment(b, s)),
    decreases b.len() - s.pos,
{
    if s.pos < b.len() && b[s.pos] != 10u8 {
        lemma_bump_counted(b, s);
        lemma_line_comment_counted(b, bump_state(s));
    }
}

proof fn lemma_block_comment_counted(b: Seq<u8>, s: ScanState)
    requires
        counted(b, s),
        0 <= s.pos <= b.len(),
        forall|k: int| s.pos <= k < skip_block_comment(b, s).pos ==> b[k] != 10u8,
    ensures
        counted(b, skip_block_comment(b, s)),
    decreases b.len() - s.pos,
{
    if s.pos < b.len() {
        let t = bump_state(s);
        lemma_skip_block_comment_bounds(b, s);
        lemma_bump_counted(b, s);
        if b[s.pos] == 42u8 && t.pos < b.len() && b[t.pos] == 47u8 {
            lemma_bump_counted(b, t);
        } else {
            lemma_block_comment_counted(b, t);
        }
    }
}

proof fn lemma_skip_counted(b: Seq<u8>, s: ScanState)
    requires
        counted(b, s),
        0 <= s.pos <= b.len(),
        block_comments_on_one_line(b),
    ensures
        counted(b, skip_spec(b, s)),
    decreases b.len() - s.pos,
{
    if s.pos < b.len() {
        if is_blank(b[s.pos]) {
            lemma_bump_counted(b, s);
            lemma_skip_counted(b, bump_state(s));
        } else if b[s.pos] == 47u8 && s.pos + 1 < b.len() && b[s.pos + 1] == 47u8 {
            let t = bump_state(bump_state(s));
            lemma_bump_counted(b, s);
            lemma_bump_counted(b, bump_state(s));
            lemma_skip_line_comment_bounds(b, t);
            lemma_line_comment_counted(b, t);
            lemma_skip_counted(b, skip_line_comment(b, t));
        } else if b[s.pos] == 47u8 && s.pos + 1 < b.len() && b[s.pos + 1] == 42u8 {
            let t = bump_state(bump_state(s));
            lemma_bump_counted(b, s);
            lemma_bump_counted(b, bump_state(s));
            lemma_skip_block_comment_bounds(b, t);
            assert(b[t.pos - 2] == 47u8 && b[t.pos - 1] == 42u8);
            assert(forall|k: int| t.pos <= k < skip_block_comment(b, t).pos ==> b[k] != 10u8);
            lemma_block_comment_counted(b, t);
            lemma_skip_counted(b, skip_block_comment(b, t));
        }
    }
}

proof fn lemma_index_counted(b: Seq<u8>, s: ScanState)
    requires
        counted(b, s),
        0 <= s.pos <= b.len(),
    ensures
        counted(b, scan_index_spec(b, s)),
    decreases b.len() - s.pos,
{
    if s.pos < b.len() && is_index_byte(b[s.pos]) {
        lemma_bump_counted(b, s);
        lemma_index_counted(b, bump_state(s));
    }
}

proof fn lemma_word_counted(b: Seq<u8>, s: ScanState)
    requires
        counted(b, s),
        0 <= s.pos <= b.len(),
    ensures
        counted(b, scan_word_spec(b, s)),
    decreases b.len() - s.pos,
{
    if s.pos < b.len() && is_word_byte(b[s.pos]) {
        lemma_bump_counted(b, s);
        lemma_word_counted(b, bump_state(s));
    }
}

/// Law: where block comments hold no line feed, reading from a state that
/// counts the input gives a token or an error whose line is the number of
/// line feeds before it and whose column is its offset from the start of
/// its line, and stops at a state that counts the input too.
pub proof fn law_line_and_column_count(b: Seq<u8>, s: ScanState)
    requires
        0 <= s.pos <= b.len(),
        counted(b, s),
        block_comments_on_one_line(b),
    ensures
        counted(b, lex_step(b, s).1),
        lex_step(b, s).0 matches LexStep::Tok { start, line, col, .. } ==> line == newlines_before(
            b,
            start,
        ) && col == start - line_start(b, start),
        lex_step(b, s).0 matches LexStep::Fail { line, col, .. } ==> {
            let p = skip_spec(b, s).pos;
            line == newlines_before(b, p) && col == p - line_start(b, p)
        },
    decreases b.len() - s.pos,
{
    lemma_skip_bounds(b, s);
    lemma_skip_counted(b, s);
    let s0 = skip_spec(b, s);
    if s0.pos < b.len() {
        let c = b[s0.pos];
        lemma_bump_counted(b, s0);
        if c == 10u8 {
        } else if is_digit(c) {
            lemma_index_counted(b, s0);
        } else if is_alpha(c) || c == 95u8 {
            lemma_word_counted(b, s0);
        } else if c == 62u8 || c == 60u8 {
            law_line_and_column_count(b, bump_state(s0));
        }
    }
}

/// A token read at the line that counts the line feeds before its start,
/// and at the column of its start's offset from the start of its line.
pub open spec fn token_at_counted_place(b: Seq<u8>, st: LexStep) -> bool {
    match st {
        LexStep::Tok { start, line, col, .. } => line == newlines_before(b, start) && col == start
            - line_start(b, start),
        _ => false,
    }
}

/// Law: where block comments hold no line feed, every token that reading a
/// whole input gives stands at the line that counts the line feeds before
/// it, and at the column of its offset from the start of its line.
pub proof fn law_tokens_at_their_line_and_column(b: Seq<u8>, s: ScanState)
    requires
        0 <= s.pos <= b.len(),
        counted(b, s),
        block_comments_on_one_line(b),
    ensures
        lex_all(b, s) matches Lexed::Tokens(ts) ==> forall|i: int|
            0 <= i < ts.len() ==> token_at_counted_place(b, #[trigger] ts[i]),
    decreases b.len() - s.pos,
{
    lemma_lex_step_progress(b, s);
    law_line_and_column_count(b, s);
    let (r, s1) = lex_step(b, s);
    if let LexStep::Tok { typ, .. } = r {
        if typ != TokenType::Eof {
            law_tokens_at_their_line_and_column(b, s1);
            if let Lexed::Tokens(rest) = lex_all(b, s1) {
                let ts = seq![r] + rest;
                assert forall|i: int| 0 <= i < ts.len() implies token_at_counted_place(
                    b,
                    #[trigger] ts[i],
                ) by {
                    if i > 0 {
                        assert(ts[i] == rest[i - 1]);
                    }
                }
            }
        }
    }
}

proof fn lemma_line_comment_no_newline(b: Seq<u8>, s: ScanState)
    requires
        0 <= s.pos <= b.len(),
    ensures
        forall|k: int| s.pos <= k < skip_line_comment(b, s).pos ==> b[k] != 10u8,
    decreases b.len() - s.pos,
{
    if s.pos < b.len() && b[s.pos] != 10u8 {
        lemma_line_comment_no_newline(b, bump_state(s));
    }
}

/// Law: skipping passes only blanks (space, tab, carriage return) and
/// comments, so, where block comments hold no line feed, it passes no line
/// feed at all: the next token is on the line where skipping began. What
/// it stops at is neither a blank nor the start of a comment (see
/// `lemma_skip_stops`).
pub proof fn law_skip_stays_on_its_line(b: Seq<u8>, s: ScanState)
    requires
        0 <= s.pos <= b.len(),
        block_comments_on_one_line(b),
    ensures
        forall|k: int| s.pos <= k < skip_spec(b, s).pos ==> b[k] != 10u8,
        skip_spec(b, s).line == s.line,
    decreases b.len() - s.pos,
{
    lemma_skip_bounds(b, s);
    if s.pos < b.len() {
        if is_blank(b[s.pos]) {
            law_skip_stays_on_its_line(b, bump_state(s));
        } else if b[s.pos] == 47u8 && s.pos + 1 < b.len() && b[s.pos + 1] == 47u8 {
            let t = bump_state(bump_state(s));
            lemma_skip_line_comment_bounds(b, t);
            lemma_line_comment_no_newline(b, t);
            law_skip_stays_on_its_line(b, skip_line_comment(b, t));
        } else if b[s.pos] == 47u8 && s.pos + 1 < b.len() && b[s.pos + 1] == 42u8 {
            let t = bump_state(bump_state(s));
            lemma_skip_block_comment_bounds(b, t);
            assert(b[t.pos - 2] == 47u8 && b[t.pos - 1] == 42u8);
            assert(forall|k: int| t.pos <= k < skip_block_comment(b, t).pos ==> b[k] != 10u8);
            law_skip_stays_on_its_line(b, skip_block_comment(b, t));
        }
    }
}

/// Where reading a whole input fails: the offset of the offending byte.
proof fn lemma_fail_place(b: Seq<u8>, s: ScanState) -> (p: int)
    requires
        0 <= s.pos <= b.len(),
        counted(b, s),
        block_comments_on_one_line(b),
    ensures
        lex_all(b, s) matches Lexed::Failed(LexStep::Fail { c, line, col }) ==> {
            &&& 0 <= p < b.len()
            &&& b[p] == c
            &&& c != 10u8 && c != 13u8
            &&& line == newlines_before(b, p)
            &&& col == p - line_start(b, p)
        },
    decreases b.len() - s.pos,
{
    lemma_lex_step_progress(b, s);
    law_token_shape(b, s);
    law_line_and_column_count(b, s);
    lemma_skip_stops(b, s);
    let (r, s1) = lex_step(b, s);
    match r {
        LexStep::Tok { typ, .. } => {
            if typ != TokenType::Eof {
                lemma_fail_place(b, s1)
            } else {
                0
            }
        },
        _ => skip_spec(b, s).pos,
    }
}

/// The number of line feeds among the first `p` characters.
pub open spec fn lf_before(s: Seq<char>, p: int) -> int
    decreases p,
{
    if p <= 0 {
        0
    } else {
        lf_before(s, p - 1) + if s[p - 1] == '\n' {
            1int
        } else {
            0int
        }
    }
}

/// Where the line holding character `p` begins.
pub open spec fn line_begin(s: Seq<char>, p: int) -> int
    decreases p,
{
    if p <= 0 {
        0
    } else if s[p - 1] == '\n' {
        p
    } else {
        line_begin(s, p - 1)
    }
}

proof fn lemma_ascii_counts(s: Seq<char>, p: int)
    requires
        is_ascii_chars(s),
        0 <= p <= s.len(),
    ensures
        newlines_before(encode_utf8(s), p) == lf_before(s, p),
        line_start(encode_utf8(s), p) == line_begin(s, p),
    decreases p,
{
    is_ascii_chars_encode_utf8(s);
    if p > 0 {
        lemma_ascii_counts(s, p - 1);
        let c = s[p - 1];
        assert(c as u8 == encode_utf8(s)[p - 1]);
        assert((c as u8 == 10u8) <==> (c == '\n'));
    }
}

proof fn lemma_no_lf_before(s: Seq<char>, i: int, p: int)
    requires
        0 <= p <= i <= s.len(),
        forall|k: int| 0 <= k < i ==> s[k] != '\n',
    ensures
        lf_before(s, p) == 0,
        line_begin(s, p) == 0,
    decreases p,
{
    if p > 0 {
        lemma_no_lf_before(s, i, p - 1);
    }
}

proof fn lemma_counts_after(s: Seq<char>, i: int, q: int)
    requires
        0 <= i < s.len(),
        s[i] == '\n',
        0 <= q <= s.len() - i - 1,
    ensures
        lf_before(s, i + 1 + q) == lf_before(s, i + 1) + lf_before(s.skip(i + 1), q),
        line_begin(s, i + 1 + q) == i + 1 + line_begin(s.skip(i + 1), q),
    decreases q,
{
    if q > 0 {
        lemma_counts_after(s, i, q - 1);
        assert(s.skip(i + 1)[q - 1] == s[i + q]);
    }
}

/// A character that is no line feed and no carriage return stands in the
/// line that the line feeds before it count, at its offset from the start
/// of that line.
proof fn lemma_char_in_its_line(s: Seq<char>, p: int)
    requires
        0 <= p < s.len(),
        s[p] != '\n',
        s[p] != '\r',
    ensures
        0 <= lf_before(s, p) < lines(s).len(),
        0 <= p - line_begin(s, p) < lines(s)[lf_before(s, p)].len(),
        lines(s)[lf_before(s, p)][p - line_begin(s, p)] == s[p],
    decreases s.len(),
{
    lemma_first_newline_bounds(s);
    lemma_first_newline_first(s);
    match first_newline(s) {
        None => {
            lemma_no_lf_before(s, s.len() as int, p);
            assert(lines(s) == seq![s]);
        },
        Some(i) => {
            let t = s.skip(i + 1);
            assert(lines(s) == seq![strip_cr(s.take(i))] + lines(t));
            if p < i {
                lemma_no_lf_before(s, i, p);
                let l = s.take(i);
                assert(l[p] == s[p]);
                if l.len() > 0 && l.last() == '\r' {
                    assert(p != i - 1);
                    assert(strip_cr(l)[p] == l[p]);
                }
            } else {
                assert(p > i);
                lemma_no_lf_before(s, i, i);
                lemma_counts_after(s, i, p - i - 1);
                assert(lf_before(s, i + 1) == 1);
                assert(t[p - i - 1] == s[p]);
                lemma_char_in_its_line(t, p - i - 1);
                assert(lines(s)[lf_before(s, p)] == lines(t)[lf_before(t, p - i - 1)]);
            }
        },
    }
}

/// Law: for an ASCII source whose block comments hold no line feed, when
/// reading its tokens fails, the error's line of the source holds the
/// offending byte at the error's column; so the report of the error (see
/// `report_text`), which shows that line and puts its caret after `col`
/// spaces, points at that byte.
pub proof fn law_error_caret_marks_the_byte(s: Seq<char>)
    requires
        is_ascii_chars(s),
        block_comments_on_one_line(encode_utf8(s)),
    ensures
        lex_all(encode_utf8(s), start_state()) matches Lexed::Failed(LexStep::Fail { c, line, col }) ==> {
            &&& 0 <= line
            &&& 0 <= col < nth_line(s, line as nat).len()
            &&& nth_line(s, line as nat)[col] == c as char
        },
{
    let b = encode_utf8(s);
    is_ascii_chars_encode_utf8(s);
    assert(counted(b, start_state()));
    let p = lemma_fail_place(b, start_state());
    if let Lexed::Failed(LexStep::Fail { c, line, col }) = lex_all(b, start_state()) {
        lemma_ascii_counts(s, p);
        assert(s[p] as u8 == b[p]);
        assert(s[p] != '\n' && s[p] != '\r');
        assert(s[p] == c as char);
        lemma_char_in_its_line(s, p);
    }
}

} // verus!
