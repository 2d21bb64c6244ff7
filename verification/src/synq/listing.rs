//! The layout of a token listing: each token on a line of its own,
//! indented by two spaces per open brace, up to the end-of-file token.
use crate::synq::lexer::{Token, TokenType, TokenView};
use vstd::prelude::*;

verus! {

/// The indentation before token `i` is read: two spaces per `{` before it,
/// less two per `}` before it, never below zero.
pub open spec fn depth_before(toks: Seq<TokenView>, i: int) -> int
    decreases i, 0int,
{
    if i <= 0 {
        0
    } else {
        line_indent(toks, i - 1) + if toks[i - 1].typ == TokenType::Lbrace {
            2int
        } else {
            0int
        }
    }
}

/// The indentation of token `i`'s line: a `}` is dedented by two first,
/// but not below zero.
pub open spec fn line_indent(toks: Seq<TokenView>, i: int) -> int
    decreases i, 1int,
{
    if i < 0 {
        0
    } else {
        let d = depth_before(toks, i);
        if toks[i].typ == TokenType::Rbrace {
            if d >= 2 {
                d - 2
            } else {
                0
            }
        } else {
            d
        }
    }
}

/// How many tokens the listing shows: up to and including the first
/// end-of-file token, or all of them.
pub open spec fn listed_count(toks: Seq<TokenView>) -> int
    decreases toks.len(),
{
    if toks.len() == 0 {
        0
    } else if toks[0].typ == TokenType::Eof {
        1
    } else {
        1 + listed_count(toks.skip(1))
    }
}

proof fn lemma_depth_bounds(toks: Seq<TokenView>, i: int)
    requires
        0 <= i,
    ensures
        0 <= depth_before(toks, i) <= 2 * i,
        0 <= line_indent(toks, i) <= depth_before(toks, i),
    decreases i,
{
    if i > 0 {
        lemma_depth_bounds(toks, i - 1);
    }
}

proof fn lemma_listed_count(toks: Seq<TokenView>, i: int)
    requires
        0 <= i <= toks.len(),
        forall|j: int| 0 <= j < i ==> toks[j].typ != TokenType::Eof,
    ensures
        listed_count(toks) == i + listed_count(toks.skip(i)),
    decreases i,
{
    if i > 0 {
        lemma_listed_count(toks.skip(1), i - 1);
        assert(toks.skip(1).skip(i - 1) =~= toks.skip(i));
    } else {
        assert(toks.skip(0) =~= toks);
    }
}

/// The indentation of each listed token's line (see [`line_indent`] and
/// [`listed_count`]).
pub fn token_indents(tokens: &Vec<Token>) -> (res: Vec<usize>)
    requires
        tokens@.len() <= usize::MAX / 2,
    ensures
        res@.len() == listed_count(tokens.deep_view()),
        forall|i: int| 0 <= i < res@.len() ==> res@[i] == line_indent(tokens.deep_view(), i),
{
    let ghost toks = tokens.deep_view();
    let mut res: Vec<usize> = Vec::new();
    let mut depth: usize = 0;
    let mut i: usize = 0;
    while i < tokens.len()
        invariant
            toks == tokens.deep_view(),
            toks.len() == tokens@.len(),
            tokens@.len() <= usize::MAX / 2,
            i <= tokens@.len(),
            depth == depth_before(toks, i as int),
            res@.len() == i,
            forall|j: int| 0 <= j < i ==> res@[j] == line_indent(toks, j),
            forall|j: int| 0 <= j < i ==> toks[j].typ != TokenType::Eof,
        decreases tokens@.len() - i,
    {
        proof {
            lemma_depth_bounds(toks, i as int);
        }
        let t = tokens[i].typ;
        assert(t == toks[i as int].typ);
        let indent = if t == TokenType::Rbrace {
            if depth >= 2 {
                depth - 2
            } else {
                0
            }
        } else {
            depth
        };
        res.push(indent);
        if t == TokenType::Eof {
            proof {
                lemma_listed_count(toks, i as int);
                assert(toks.skip(i as int)[0] == toks[i as int]);
            }
            return res;
        }
        depth = if t == TokenType::Lbrace {
            indent + 2
        } else {
            indent
        };
        i = i + 1;
    }
    proof {
        lemma_listed_count(toks, i as int);
    }
    res
}

/// What a token does to the brace depth: `{` opens, `}` closes.
pub open spec fn brace_delta(t: TokenView) -> int {
    if t.typ == TokenType::Lbrace {
        1
    } else if t.typ == TokenType::Rbrace {
        -1
    } else {
        0
    }
}

/// The number of `{` less the number of `}` among the tokens `a..b`.
pub open spec fn net_braces(toks: Seq<TokenView>, a: int, b: int) -> int
    decreases b - a,
{
    if b <= a {
        0
    } else {
        net_braces(toks, a, b - 1) + brace_delta(toks[b - 1])
    }
}

/// No `}` among the tokens before `b` closes more than was opened.
pub open spec fn no_stray_close(toks: Seq<TokenView>, b: int) -> bool {
    forall|k: int| 0 <= k <= b ==> #[trigger] net_braces(toks, 0, k) >= 0
}

proof fn lemma_net_split(toks: Seq<TokenView>, a: int, m: int, b: int)
    requires
        0 <= a <= m <= b,
    ensures
        net_braces(toks, a, b) == net_braces(toks, a, m) + net_braces(toks, m, b),
    decreases b - m,
{
    if b > m {
        lemma_net_split(toks, a, m, b - 1);
    }
}

/// Law: where no `}` closes more than was opened, the depth before token
/// `i` is two spaces per `{` still open there; a `}` is shown at the depth
/// after it, any other token at the depth before it.
pub proof fn law_depth_counts_open_braces(toks: Seq<TokenView>, i: int)
    requires
        0 <= i < toks.len(),
        no_stray_close(toks, i + 1),
    ensures
        depth_before(toks, i) == 2 * net_braces(toks, 0, i),
        line_indent(toks, i) == 2 * net_braces(toks, 0, if toks[i].typ == TokenType::Rbrace {
            i + 1
        } else {
            i
        }),
    decreases i,
{
    assert(net_braces(toks, 0, i) >= 0 && net_braces(toks, 0, i + 1) >= 0);
    if i > 0 {
        law_depth_counts_open_braces(toks, i - 1);
    }
}

/// Law: where no `}` closes more than was opened, a `}` is shown at the
/// depth of the `{` it closes: a `{` at `i` and a `}` at `j` with as many
/// `{` as `}` between them line up.
pub proof fn law_closing_brace_lines_up(toks: Seq<TokenView>, i: int, j: int)
    requires
        0 <= i < j < toks.len(),
        toks[i].typ == TokenType::Lbrace,
        toks[j].typ == TokenType::Rbrace,
        net_braces(toks, i + 1, j) == 0,
        no_stray_close(toks, j + 1),
    ensures
        line_indent(toks, j) == line_indent(toks, i),
{
    assert forall|k: int| 0 <= k <= i + 1 implies #[trigger] net_braces(toks, 0, k) >= 0 by {
        assert(net_braces(toks, 0, k) >= 0);
    }
    law_depth_counts_open_braces(toks, i);
    law_depth_counts_open_braces(toks, j);
    lemma_net_split(toks, 0, i + 1, j);
    assert(net_braces(toks, 0, j + 1) == net_braces(toks, 0, j) - 1);
    assert(net_braces(toks, 0, i + 1) == net_braces(toks, 0, i) + 1);
}

/// Law: the listing shows the tokens up to and including the first
/// end-of-file token, and all of them when there is none.
pub proof fn law_listing_stops_at_end_of_file(toks: Seq<TokenView>, e: int)
    requires
        0 <= e <= toks.len(),
        forall|k: int| 0 <= k < e ==> toks[k].typ != TokenType::Eof,
        e < toks.len() ==> toks[e].typ == TokenType::Eof,
    ensures
        listed_count(toks) == if e < toks.len() {
            e + 1
        } else {
            e
        },
{
    lemma_listed_count(toks, e);
    if e < toks.len() {
        assert(toks.skip(e)[0] == toks[e]);
    } else {
        assert(toks.skip(e).len() == 0);
    }
}

} // verus!
