//! The law that parsing two sources of complete declarations, one after
//! the other, joins the two trees; with the facts it rests on: parsing
//! reads one top-level item at a time, and reading an item depends only on
//! the tokens it reads.
use crate::synq::ast::{AstModel, AttrModel, ConstModel, FrameModel, HintModel, PhotonModel};
use crate::synq::lexer::{TokenType, TokenView};
use crate::synq::parser::{
    brace_spec, call_args_spec, call_spec, calls_spec, dotted_spec, frame_body_spec, items_spec,
    lemma_brace_progress, lemma_call_args_progress, lemma_call_progress, lemma_calls_progress,
    lemma_dotted_progress, lemma_frame_body_progress, lemma_message_progress,
    lemma_messages_progress, lemma_opt_name_progress, lemma_option_progress,
    lemma_reserved_progress, lemma_uses_progress, lemma_word_args_progress, message_spec,
    messages_spec, opt_name_spec, option_spec, reserved_spec, step, tok_at, typ_at, uses_spec,
    word_args_spec, empty_ast, parse_spec, Parsed,
};
use vstd::prelude::*;

verus! {

/// The outcome of reading one top-level item: the position after it with
/// the tree and held attributes, or the end of reading.
pub enum ItemStep {
    Next(int, AstModel, Seq<AttrModel>),
    Stop(Parsed<AstModel>),
}

/// Reading the top-level item at `p` (a position within the tokens), as
/// [`items_spec`] does before it goes on.
pub open spec fn item_step(
    toks: Seq<TokenView>,
    p: int,
    ast: AstModel,
    pending: Seq<AttrModel>,
) -> ItemStep {
    let t = toks[p];
    if t.typ == TokenType::Eof {
        ItemStep::Stop(Parsed::Done(ast, p))
    } else if t.typ == TokenType::Package || t.typ == TokenType::Import {
        match tok_at(toks, p + 1) {
            None => ItemStep::Stop(Parsed::Panic),
            Some(n) => {
                let (name, q) = dotted_spec(toks, p + 2, n.text);
                if t.typ == TokenType::Package {
                    ItemStep::Next(q, AstModel { package: ast.package + name, ..ast }, pending)
                } else {
                    ItemStep::Next(q, AstModel { import: ast.import.push(name), ..ast }, pending)
                }
            },
        }
    } else if t.typ == TokenType::Const || t.typ == TokenType::Option {
        match tok_at(toks, p + 1) {
            None => ItemStep::Stop(Parsed::Panic),
            Some(n) => {
                let p3 = step(toks, p + 2);
                match tok_at(toks, p3) {
                    None => ItemStep::Stop(Parsed::Panic),
                    Some(v) => if t.typ == TokenType::Const {
                        ItemStep::Next(
                            p3 + 1,
                            AstModel {
                                consts: ast.consts.push(ConstModel { name: n.text, value: v.text }),
                                ..ast
                            },
                            pending,
                        )
                    } else {
                        ItemStep::Next(
                            p3 + 1,
                            AstModel {
                                options: ast.options.push(HintModel { name: n.text, hint: v.text }),
                                ..ast
                            },
                            pending,
                        )
                    },
                }
            },
        }
    } else if t.typ == TokenType::Attribute {
        match tok_at(toks, p + 1) {
            None => ItemStep::Stop(
                Parsed::Failed(
                    crate::error::ParseErrorView::Unexpected {
                        typ: "EOF"@,
                        line: t.line,
                        col: t.col,
                    },
                ),
            ),
            Some(k) => {
                let p2 = p + 2;
                if typ_at(toks, p2) == Some(TokenType::Ident) {
                    ItemStep::Next(
                        p2 + 1,
                        ast,
                        pending.push(AttrModel { key: k.text, val: toks[p2].text }),
                    )
                } else {
                    ItemStep::Next(p2, ast, pending.push(AttrModel { key: k.text, val: Seq::empty() }))
                }
            },
        }
    } else if t.typ == TokenType::Frame || t.typ == TokenType::Photon {
        match tok_at(toks, p + 1) {
            None => ItemStep::Stop(Parsed::Panic),
            Some(n) => match brace_spec(toks, p + 2) {
                None => ItemStep::Stop(Parsed::Panic),
                Some(q) => if t.typ == TokenType::Frame {
                    match frame_body_spec(toks, q + 1, Seq::empty(), Seq::empty()) {
                        Parsed::Done((fields, res), r) => ItemStep::Next(
                            r,
                            AstModel {
                                frames: ast.frames.push(
                                    FrameModel {
                                        name: n.text,
                                        attrs: pending,
                                        fields,
                                        reservations: res,
                                    },
                                ),
                                ..ast
                            },
                            Seq::empty(),
                        ),
                        Parsed::Failed(e) => ItemStep::Stop(Parsed::Failed(e)),
                        Parsed::Panic => ItemStep::Stop(Parsed::Panic),
                    }
                } else {
                    match messages_spec(toks, q + 1, n.text, Seq::empty()) {
                        Some((msgs, r)) => ItemStep::Next(
                            r + 1,
                            AstModel {
                                synqs: ast.synqs.push(
                                    PhotonModel { name: n.text, attrs: pending, messages: msgs },
                                ),
                                ..ast
                            },
                            Seq::empty(),
                        ),
                        None => ItemStep::Stop(Parsed::Panic),
                    }
                },
            },
        }
    } else {
        ItemStep::Next(p + 1, ast, pending)
    }
}

/// Reading an item moves forward.
pub proof fn lemma_item_step_progress(
    toks: Seq<TokenView>,
    p: int,
    ast: AstModel,
    pending: Seq<AttrModel>,
)
    requires
        0 <= p < toks.len(),
    ensures
        item_step(toks, p, ast, pending) matches ItemStep::Next(q, _, _) ==> p < q <= toks.len() + 1,
{
    let t = toks[p];
    if t.typ == TokenType::Package || t.typ == TokenType::Import {
        if let Some(n) = tok_at(toks, p + 1) {
            lemma_dotted_progress(toks, p + 2, n.text);
        }
    } else if t.typ == TokenType::Frame || t.typ == TokenType::Photon {
        if let Some(n) = tok_at(toks, p + 1) {
            lemma_brace_progress(toks, p + 2);
            if let Some(q) = brace_spec(toks, p + 2) {
                lemma_frame_body_progress(toks, q + 1, Seq::empty(), Seq::empty());
                lemma_messages_progress(toks, q + 1, n.text, Seq::empty());
            }
        }
    }
}

/// Parsing from a position within the tokens reads the item there, then
/// goes on from where it stops.
pub proof fn lemma_items_unfold(
    toks: Seq<TokenView>,
    p: int,
    ast: AstModel,
    pending: Seq<AttrModel>,
)
    requires
        0 <= p < toks.len(),
    ensures
        items_spec(toks, p, ast, pending) == match item_step(toks, p, ast, pending) {
            ItemStep::Next(q, a, pd) => items_spec(toks, q, a, pd),
            ItemStep::Stop(r) => r,
        },
{
}

/// `t2` holds the first `m` tokens of `t1` from offset `d` on.
pub open spec fn agree(t1: Seq<TokenView>, t2: Seq<TokenView>, d: int, m: int) -> bool {
    &&& 0 <= d
    &&& 0 <= m <= t1.len()
    &&& m + d <= t2.len()
    &&& forall|k: int| 0 <= k < m ==> t2[k + d] == #[trigger] t1[k]
}

/// `t2` ends with the whole of `t1`, from offset `d` on.
pub open spec fn whole(t1: Seq<TokenView>, t2: Seq<TokenView>, d: int, m: int) -> bool {
    m == t1.len() && t2.len() == t1.len() + d
}

pub open spec fn shift_opt<T>(r: Option<(T, int)>, d: int) -> Option<(T, int)> {
    match r {
        Some((v, q)) => Some((v, q + d)),
        None => None,
    }
}

pub open spec fn shift_parsed<T>(r: Parsed<T>, d: int) -> Parsed<T> {
    match r {
        Parsed::Done(v, q) => Parsed::Done(v, q + d),
        Parsed::Failed(e) => Parsed::Failed(e),
        Parsed::Panic => Parsed::Panic,
    }
}

/// A result found before position `m`.
pub open spec fn opt_before<T>(r: Option<(T, int)>, m: int) -> bool {
    r matches Some((_, q)) && q < m
}

pub open spec fn parsed_before<T>(r: Parsed<T>, m: int) -> bool {
    r matches Parsed::Done(_, q) && q < m
}

proof fn lemma_at(t1: Seq<TokenView>, t2: Seq<TokenView>, d: int, m: int, p: int)
    requires
        agree(t1, t2, d, m),
        0 <= p,
        whole(t1, t2, d, m) || p < m,
    ensures
        tok_at(t2, p + d) == tok_at(t1, p),
        typ_at(t2, p + d) == typ_at(t1, p),
        step(t2, p + d) == step(t1, p) + d,
        (p < t1.len()) == (p + d < t2.len()),
        p < t1.len() ==> t2[p + d] == t1[p],
{
    if p < m {
        assert(t2[p + d] == t1[p]);
    }
}

proof fn reloc_dotted(t1: Seq<TokenView>, t2: Seq<TokenView>, d: int, m: int, p: int, acc: Seq<char>)
    requires
        agree(t1, t2, d, m),
        0 <= p,
    ensures
        whole(t1, t2, d, m) || dotted_spec(t1, p, acc).1 < m ==> dotted_spec(t2, p + d, acc) == (
            dotted_spec(t1, p, acc).0,
            dotted_spec(t1, p, acc).1 + d,
        ),
    decreases t1.len() - p,
{
    if whole(t1, t2, d, m) || dotted_spec(t1, p, acc).1 < m {
        if p <= t1.len() {
            lemma_dotted_progress(t1, p, acc);
        }
        lemma_at(t1, t2, d, m, p);
        if typ_at(t1, p) == Some(TokenType::Dot) {
            let p1 = step(t1, p);
            match tok_at(t1, p1) {
                Some(t) => {
                    lemma_dotted_progress(t1, step(t1, p1), acc + "."@ + t.text);
                    lemma_at(t1, t2, d, m, p1);
                    reloc_dotted(t1, t2, d, m, step(t1, p1), acc + "."@ + t.text);
                },
                None => {
                    lemma_dotted_progress(t1, step(t1, p1), acc);
                    lemma_at(t1, t2, d, m, p1);
                    reloc_dotted(t1, t2, d, m, step(t1, p1), acc);
                },
            }
        }
    }
}

proof fn reloc_brace(t1: Seq<TokenView>, t2: Seq<TokenView>, d: int, m: int, p: int)
    requires
        agree(t1, t2, d, m),
        0 <= p,
    ensures
        whole(t1, t2, d, m) || (brace_spec(t1, p) matches Some(q) && q < m) ==> brace_spec(
            t2,
            p + d,
        ) == (match brace_spec(t1, p) {
            Some(q) => Some(q + d),
            None => None,
        }),
    decreases t1.len() - p,
{
    if whole(t1, t2, d, m) || (brace_spec(t1, p) matches Some(q) && q < m) {
        lemma_brace_progress(t1, p);
        lemma_at(t1, t2, d, m, p);
        if p < t1.len() && !(t1[p].typ == TokenType::Lbrace || t1[p].typ == TokenType::Eof) {
            reloc_brace(t1, t2, d, m, p + 1);
        }
    }
}

proof fn reloc_reserved(
    t1: Seq<TokenView>,
    t2: Seq<TokenView>,
    d: int,
    m: int,
    p: int,
    acc: Seq<Seq<char>>,
)
    requires
        agree(t1, t2, d, m),
        0 <= p,
    ensures
        whole(t1, t2, d, m) || opt_before(reserved_spec(t1, p, acc), m) ==> reserved_spec(
            t2,
            p + d,
            acc,
        ) == shift_opt(reserved_spec(t1, p, acc), d),
    decreases t1.len() - p,
{
    if whole(t1, t2, d, m) || opt_before(reserved_spec(t1, p, acc), m) {
        lemma_reserved_progress(t1, p, acc);
        lemma_at(t1, t2, d, m, p);
        if p < t1.len() && !(t1[p].typ == TokenType::Newline || t1[p].typ == TokenType::Eof) {
            if crate::synq::parser::is_type_name(t1[p].text) {
                if acc.len() != 0 {
                    reloc_reserved(t1, t2, d, m, p + 1, acc.push(acc.last() + "—"@ + t1[p].text));
                }
            } else {
                match tok_at(t1, p + 1) {
                    Some(t) => {
                        lemma_reserved_progress(t1, step(t1, p + 1), acc.push(t.text));
                        lemma_at(t1, t2, d, m, p + 1);
                        reloc_reserved(t1, t2, d, m, step(t1, p + 1), acc.push(t.text));
                    },
                    None => {
                        lemma_at(t1, t2, d, m, p + 1);
                    },
                }
            }
        }
    }
}

proof fn reloc_frame_body(
    t1: Seq<TokenView>,
    t2: Seq<TokenView>,
    d: int,
    m: int,
    p: int,
    fields: Seq<crate::synq::ast::FieldModel>,
    res: Seq<crate::synq::ast::ReservedModel>,
)
    requires
        agree(t1, t2, d, m),
        0 <= p,
    ensures
        whole(t1, t2, d, m) || parsed_before(frame_body_spec(t1, p, fields, res), m)
            ==> frame_body_spec(t2, p + d, fields, res) == shift_parsed(
            frame_body_spec(t1, p, fields, res),
            d,
        ),
    decreases t1.len() - p,
{
    if whole(t1, t2, d, m) || parsed_before(frame_body_spec(t1, p, fields, res), m) {
        lemma_frame_body_progress(t1, p, fields, res);
        lemma_at(t1, t2, d, m, p);
        if p < t1.len() {
            let t = t1[p];
            if t.typ == TokenType::Rbrace || t.typ == TokenType::Eof {
            } else if t.typ == TokenType::Newline {
                reloc_frame_body(t1, t2, d, m, p + 1, fields, res);
            } else if t.text == "reserved"@ {
                lemma_reserved_progress(t1, p, Seq::empty());
                match reserved_spec(t1, p, Seq::empty()) {
                    Some((list, q)) => {
                        let r2 = res.push(crate::synq::ast::ReservedModel { reservations: list });
                        lemma_frame_body_progress(t1, q, fields, r2);
                        reloc_reserved(t1, t2, d, m, p, Seq::empty());
                        reloc_frame_body(t1, t2, d, m, q, fields, r2);
                    },
                    None => {
                        reloc_reserved(t1, t2, d, m, p, Seq::empty());
                    },
                }
            } else {
                let hint = if crate::synq::parser::is_field_hint(t.text) {
                    Some(t.text)
                } else {
                    None
                };
                let q0 = if crate::synq::parser::is_field_hint(t.text) {
                    p + 1
                } else {
                    p
                };
                if whole(t1, t2, d, m) {
                    lemma_at(t1, t2, d, m, q0);
                    lemma_at(t1, t2, d, m, q0 + 1);
                }
                match tok_at(t1, q0) {
                    None => {},
                    Some(fname) => match tok_at(t1, q0 + 1) {
                        None => {},
                        Some(ftype) => {
                            let f2 = fields.push(
                                crate::synq::ast::FieldModel {
                                    hint,
                                    typ: ftype.text,
                                    name: fname.text,
                                    reservations: None,
                                },
                            );
                            lemma_frame_body_progress(t1, q0 + 2, f2, res);
                            lemma_at(t1, t2, d, m, q0);
                            lemma_at(t1, t2, d, m, q0 + 1);
                            reloc_frame_body(t1, t2, d, m, q0 + 2, f2, res);
                        },
                    },
                }
            }
        }
    }
}

proof fn reloc_opt_name(
    t1: Seq<TokenView>,
    t2: Seq<TokenView>,
    d: int,
    m: int,
    p: int,
    acc: Seq<char>,
)
    requires
        agree(t1, t2, d, m),
        0 <= p,
    ensures
        whole(t1, t2, d, m) || opt_before(opt_name_spec(t1, p, acc), m) ==> opt_name_spec(
            t2,
            p + d,
            acc,
        ) == shift_opt(opt_name_spec(t1, p, acc), d),
    decreases t1.len() - p,
{
    if whole(t1, t2, d, m) || opt_before(opt_name_spec(t1, p, acc), m) {
        lemma_opt_name_progress(t1, p, acc);
        lemma_at(t1, t2, d, m, p);
        if p < t1.len() && !(t1[p].typ == TokenType::Lbrace || t1[p].typ == TokenType::Eof) {
            reloc_opt_name(t1, t2, d, m, p + 1, acc + t1[p].text);
        }
    }
}

proof fn reloc_uses(
    t1: Seq<TokenView>,
    t2: Seq<TokenView>,
    d: int,
    m: int,
    p: int,
    acc: Seq<Seq<char>>,
)
    requires
        agree(t1, t2, d, m),
        0 <= p <= t1.len(),
    ensures
        whole(t1, t2, d, m) || opt_before(uses_spec(t1, p, acc), m) ==> uses_spec(t2, p + d, acc)
            == shift_opt(uses_spec(t1, p, acc), d),
    decreases t1.len() - p,
{
    if whole(t1, t2, d, m) || opt_before(uses_spec(t1, p, acc), m) {
        lemma_uses_progress(t1, p, acc);
        lemma_at(t1, t2, d, m, p);
        if typ_at(t1, p) == Some(TokenType::Use) {
            match tok_at(t1, p + 1) {
                Some(t) => {
                    lemma_uses_progress(t1, step(t1, p + 1), acc.push(t.text));
                    lemma_at(t1, t2, d, m, p + 1);
                    reloc_uses(t1, t2, d, m, step(t1, p + 1), acc.push(t.text));
                },
                None => {
                    lemma_at(t1, t2, d, m, p + 1);
                },
            }
        }
    }
}

proof fn reloc_call_args(
    t1: Seq<TokenView>,
    t2: Seq<TokenView>,
    d: int,
    m: int,
    p: int,
    acc: Seq<Seq<char>>,
)
    requires
        agree(t1, t2, d, m),
        0 <= p <= t1.len(),
    ensures
        whole(t1, t2, d, m) || call_args_spec(t1, p, acc).1 < m ==> call_args_spec(t2, p + d, acc)
            == (call_args_spec(t1, p, acc).0, call_args_spec(t1, p, acc).1 + d),
    decreases t1.len() - p,
{
    if whole(t1, t2, d, m) || call_args_spec(t1, p, acc).1 < m {
        lemma_call_args_progress(t1, p, acc);
        lemma_at(t1, t2, d, m, p);
        if p < t1.len() && t1[p].typ != TokenType::Rparen {
            if t1[p].text == ","@ {
                lemma_call_args_progress(t1, p + 1, acc);
                reloc_call_args(t1, t2, d, m, p + 1, acc);
            } else {
                lemma_call_args_progress(t1, p + 1, acc.push(t1[p].text));
                reloc_call_args(t1, t2, d, m, p + 1, acc.push(t1[p].text));
            }
        }
    }
}

proof fn reloc_word_args(
    t1: Seq<TokenView>,
    t2: Seq<TokenView>,
    d: int,
    m: int,
    p: int,
    acc: Seq<Seq<char>>,
)
    requires
        agree(t1, t2, d, m),
        0 <= p <= t1.len(),
    ensures
        whole(t1, t2, d, m) || word_args_spec(t1, p, acc).1 < m ==> word_args_spec(t2, p + d, acc)
            == (word_args_spec(t1, p, acc).0, word_args_spec(t1, p, acc).1 + d),
    decreases t1.len() - p,
{
    if whole(t1, t2, d, m) || word_args_spec(t1, p, acc).1 < m {
        lemma_word_args_progress(t1, p, acc);
        lemma_at(t1, t2, d, m, p);
        if p < t1.len() && !(t1[p].typ == TokenType::Newline || t1[p].typ == TokenType::Rbrace
            || t1[p].typ == TokenType::Eof) {
            lemma_word_args_progress(t1, p + 1, acc.push(t1[p].text));
            reloc_word_args(t1, t2, d, m, p + 1, acc.push(t1[p].text));
        }
    }
}

proof fn reloc_call(t1: Seq<TokenView>, t2: Seq<TokenView>, d: int, m: int, p: int)
    requires
        agree(t1, t2, d, m),
        0 <= p < t1.len(),
        whole(t1, t2, d, m) || p < m,
    ensures
        whole(t1, t2, d, m) || opt_before(call_spec(t1, p), m) ==> call_spec(t2, p + d)
            == shift_opt(call_spec(t1, p), d),
{
    if whole(t1, t2, d, m) || opt_before(call_spec(t1, p), m) {
        lemma_call_progress(t1, p);
        lemma_at(t1, t2, d, m, p);
        let t = t1[p];
        let c0 = if crate::synq::parser::is_field_hint(t.text) {
            p + 1
        } else {
            p
        };
        if whole(t1, t2, d, m) {
            lemma_at(t1, t2, d, m, c0);
        }
        match tok_at(t1, c0) {
            None => {},
            Some(f) => {
                lemma_dotted_progress(t1, c0 + 1, f.text);
                let (fun_name, c2) = dotted_spec(t1, c0 + 1, f.text);
                lemma_at(t1, t2, d, m, c0);
                reloc_dotted(t1, t2, d, m, c0 + 1, f.text);
                if typ_at(t1, c2) == Some(TokenType::Lparen) {
                    lemma_call_args_progress(t1, c2 + 1, Seq::empty());
                    lemma_at(t1, t2, d, m, c2);
                    reloc_call_args(t1, t2, d, m, c2 + 1, Seq::empty());
                } else {
                    lemma_word_args_progress(t1, c2, Seq::empty());
                    if whole(t1, t2, d, m) || c2 < m {
                        lemma_at(t1, t2, d, m, c2);
                    }
                    reloc_word_args(t1, t2, d, m, c2, Seq::empty());
                }
            },
        }
    }
}

proof fn reloc_calls(
    t1: Seq<TokenView>,
    t2: Seq<TokenView>,
    d: int,
    m: int,
    p: int,
    acc: Seq<crate::synq::ast::CallModel>,
)
    requires
        agree(t1, t2, d, m),
        0 <= p,
    ensures
        whole(t1, t2, d, m) || opt_before(calls_spec(t1, p, acc), m) ==> calls_spec(t2, p + d, acc)
            == shift_opt(calls_spec(t1, p, acc), d),
    decreases t1.len() - p,
{
    if whole(t1, t2, d, m) || opt_before(calls_spec(t1, p, acc), m) {
        lemma_calls_progress(t1, p, acc);
        lemma_at(t1, t2, d, m, p);
        if p < t1.len() && !(t1[p].typ == TokenType::Rbrace || t1[p].typ == TokenType::Eof) {
            if t1[p].typ == TokenType::Newline {
                reloc_calls(t1, t2, d, m, p + 1, acc);
            } else {
                lemma_call_progress(t1, p);
                reloc_call(t1, t2, d, m, p);
                match call_spec(t1, p) {
                    Some((c, q)) => {
                        lemma_calls_progress(t1, q, acc.push(c));
                        reloc_calls(t1, t2, d, m, q, acc.push(c));
                    },
                    None => {},
                }
            }
        }
    }
}

proof fn reloc_option(t1: Seq<TokenView>, t2: Seq<TokenView>, d: int, m: int, p: int, photon: Seq<char>)
    requires
        agree(t1, t2, d, m),
        0 <= p <= t1.len(),
    ensures
        whole(t1, t2, d, m) || opt_before(option_spec(t1, p, photon), m) ==> option_spec(
            t2,
            p + d,
            photon,
        ) == shift_opt(option_spec(t1, p, photon), d),
{
    if whole(t1, t2, d, m) || opt_before(option_spec(t1, p, photon), m) {
        lemma_option_progress(t1, p, photon);
        let r1 = step(t1, p);
        let r2 = step(t1, r1);
        lemma_opt_name_progress(t1, r2, Seq::empty());
        match opt_name_spec(t1, r2, Seq::empty()) {
            None => {
                if whole(t1, t2, d, m) {
                    lemma_at(t1, t2, d, m, p);
                    lemma_at(t1, t2, d, m, r1);
                }
                reloc_opt_name(t1, t2, d, m, r2, Seq::empty());
            },
            Some((opt_name, r3)) => {
                lemma_uses_progress(t1, step(t1, r3), Seq::empty());
                if let Some((nss, r5)) = uses_spec(t1, step(t1, r3), Seq::empty()) {
                    lemma_calls_progress(t1, r5, Seq::empty());
                }
                if whole(t1, t2, d, m) || r3 < m {
                    lemma_at(t1, t2, d, m, p);
                    lemma_at(t1, t2, d, m, r1);
                    lemma_at(t1, t2, d, m, r3);
                }
                reloc_opt_name(t1, t2, d, m, r2, Seq::empty());
                reloc_uses(t1, t2, d, m, step(t1, r3), Seq::empty());
                match uses_spec(t1, step(t1, r3), Seq::empty()) {
                    None => {},
                    Some((nss, r5)) => {
                        reloc_calls(t1, t2, d, m, r5, Seq::empty());
                    },
                }
            },
        }
    }
}

proof fn lemma_at_if(t1: Seq<TokenView>, t2: Seq<TokenView>, d: int, m: int, p: int)
    requires
        agree(t1, t2, d, m),
        0 <= p,
    ensures
        whole(t1, t2, d, m) || p < m ==> {
            &&& tok_at(t2, p + d) == tok_at(t1, p)
            &&& typ_at(t2, p + d) == typ_at(t1, p)
            &&& step(t2, p + d) == step(t1, p) + d
        },
{
    if whole(t1, t2, d, m) || p < m {
        lemma_at(t1, t2, d, m, p);
    }
}

proof fn reloc_message(t1: Seq<TokenView>, t2: Seq<TokenView>, d: int, m: int, p: int, photon: Seq<char>)
    requires
        agree(t1, t2, d, m),
        0 <= p < t1.len(),
    ensures
        whole(t1, t2, d, m) || opt_before(message_spec(t1, p, photon), m) ==> message_spec(
            t2,
            p + d,
            photon,
        ) == shift_opt(message_spec(t1, p, photon), d),
{
    let q1 = step(t1, p);
    let a1 = step(t1, q1);
    let q3 = step(t1, a1);
    let b1 = step(t1, q3);
    let b2 = step(t1, b1);
    let b3 = step(t1, b2);
    let q7 = step(t1, b3);
    let c1 = step(t1, q7);
    let c2 = step(t1, c1);
    let q10 = step(t1, c2);
    if typ_at(t1, q10) != Some(TokenType::Rbrace) {
        lemma_option_progress(t1, q10, photon);
    }
    lemma_at_if(t1, t2, d, m, p);
    lemma_at_if(t1, t2, d, m, q1);
    lemma_at_if(t1, t2, d, m, a1);
    lemma_at_if(t1, t2, d, m, q3);
    lemma_at_if(t1, t2, d, m, b1);
    lemma_at_if(t1, t2, d, m, b2);
    lemma_at_if(t1, t2, d, m, b3);
    lemma_at_if(t1, t2, d, m, q7);
    lemma_at_if(t1, t2, d, m, c1);
    lemma_at_if(t1, t2, d, m, c2);
    lemma_at_if(t1, t2, d, m, q10);
    if typ_at(t1, q10) != Some(TokenType::Rbrace) {
        reloc_option(t1, t2, d, m, q10, photon);
        if let Some((opt, r)) = option_spec(t1, q10, photon) {
            lemma_at_if(t1, t2, d, m, r);
        }
    }
}

proof fn reloc_messages(
    t1: Seq<TokenView>,
    t2: Seq<TokenView>,
    d: int,
    m: int,
    p: int,
    photon: Seq<char>,
    acc: Seq<crate::synq::ast::MessageModel>,
)
    requires
        agree(t1, t2, d, m),
        0 <= p,
    ensures
        whole(t1, t2, d, m) || opt_before(messages_spec(t1, p, photon, acc), m) ==> messages_spec(
            t2,
            p + d,
            photon,
            acc,
        ) == shift_opt(messages_spec(t1, p, photon, acc), d),
    decreases t1.len() - p,
{
    if whole(t1, t2, d, m) || opt_before(messages_spec(t1, p, photon, acc), m) {
        lemma_messages_progress(t1, p, photon, acc);
        lemma_at(t1, t2, d, m, p);
        if p < t1.len() && !(t1[p].typ == TokenType::Rbrace || t1[p].typ == TokenType::Eof) {
            if t1[p].typ == TokenType::Message {
                lemma_message_progress(t1, p, photon);
                reloc_message(t1, t2, d, m, p, photon);
                match message_spec(t1, p, photon) {
                    Some((msg, q)) => {
                        lemma_messages_progress(t1, q, photon, acc.push(msg));
                        reloc_messages(t1, t2, d, m, q, photon, acc.push(msg));
                    },
                    None => {},
                }
            } else {
                reloc_messages(t1, t2, d, m, p + 1, photon, acc);
            }
        }
    }
}

pub open spec fn shift_step(r: ItemStep, d: int) -> ItemStep {
    match r {
        ItemStep::Next(q, a, pd) => ItemStep::Next(q + d, a, pd),
        ItemStep::Stop(x) => ItemStep::Stop(shift_parsed(x, d)),
    }
}

/// An item read that goes on before position `m`.
pub open spec fn step_before(r: ItemStep, m: int) -> bool {
    r matches ItemStep::Next(q, _, _) && q < m
}

/// Reading an item depends only on the tokens it reads.
proof fn reloc_item(
    t1: Seq<TokenView>,
    t2: Seq<TokenView>,
    d: int,
    m: int,
    p: int,
    ast: AstModel,
    pending: Seq<AttrModel>,
)
    requires
        agree(t1, t2, d, m),
        0 <= p < t1.len(),
        whole(t1, t2, d, m) || p < m,
    ensures
        whole(t1, t2, d, m) || step_before(item_step(t1, p, ast, pending), m) ==> item_step(
            t2,
            p + d,
            ast,
            pending,
        ) == shift_step(item_step(t1, p, ast, pending), d),
{
    lemma_item_step_progress(t1, p, ast, pending);
    lemma_at(t1, t2, d, m, p);
    let t = t1[p];
    lemma_at_if(t1, t2, d, m, p + 1);
    lemma_at_if(t1, t2, d, m, p + 2);
    if t.typ == TokenType::Package || t.typ == TokenType::Import {
        if let Some(n) = tok_at(t1, p + 1) {
            lemma_dotted_progress(t1, p + 2, n.text);
            reloc_dotted(t1, t2, d, m, p + 2, n.text);
        }
    } else if t.typ == TokenType::Const || t.typ == TokenType::Option {
        lemma_at_if(t1, t2, d, m, step(t1, p + 2));
    } else if t.typ == TokenType::Frame || t.typ == TokenType::Photon {
        if let Some(n) = tok_at(t1, p + 1) {
            lemma_brace_progress(t1, p + 2);
            reloc_brace(t1, t2, d, m, p + 2);
            if let Some(q) = brace_spec(t1, p + 2) {
                lemma_frame_body_progress(t1, q + 1, Seq::empty(), Seq::empty());
                lemma_messages_progress(t1, q + 1, n.text, Seq::empty());
                reloc_frame_body(t1, t2, d, m, q + 1, Seq::empty(), Seq::empty());
                reloc_messages(t1, t2, d, m, q + 1, n.text, Seq::empty());
            }
        }
    }
}

/// Parsing the tokens of `t1` from `p` gives what parsing them gives where
/// they stand at the end of `t2`, positions moved by `d`.
proof fn reloc_items(
    t1: Seq<TokenView>,
    t2: Seq<TokenView>,
    d: int,
    p: int,
    ast: AstModel,
    pending: Seq<AttrModel>,
)
    requires
        agree(t1, t2, d, t1.len() as int),
        t2.len() == t1.len() + d,
        0 <= p,
    ensures
        items_spec(t2, p + d, ast, pending) == shift_parsed(items_spec(t1, p, ast, pending), d),
    decreases t1.len() + 1 - p,
{
    if p < t1.len() {
        lemma_items_unfold(t1, p, ast, pending);
        lemma_items_unfold(t2, p + d, ast, pending);
        lemma_item_step_progress(t1, p, ast, pending);
        reloc_item(t1, t2, d, t1.len() as int, p, ast, pending);
        if let ItemStep::Next(q, a, pd) = item_step(t1, p, ast, pending) {
            reloc_items(t1, t2, d, q, a, pd);
        }
    }
}

/// The tree `a` followed by the tree `b`: packages run together, lists
/// joined.
pub open spec fn join_ast(a: AstModel, b: AstModel) -> AstModel {
    AstModel {
        package: a.package + b.package,
        import: a.import + b.import,
        options: a.options + b.options,
        consts: a.consts + b.consts,
        enums: a.enums + b.enums,
        frames: a.frames + b.frames,
        synqs: a.synqs + b.synqs,
    }
}

pub open spec fn join_parsed(a: AstModel, r: Parsed<AstModel>) -> Parsed<AstModel> {
    match r {
        Parsed::Done(x, q) => Parsed::Done(join_ast(a, x), q),
        Parsed::Failed(e) => Parsed::Failed(e),
        Parsed::Panic => Parsed::Panic,
    }
}

pub open spec fn join_step(a: AstModel, r: ItemStep) -> ItemStep {
    match r {
        ItemStep::Next(q, x, pd) => ItemStep::Next(q, join_ast(a, x), pd),
        ItemStep::Stop(x) => ItemStep::Stop(join_parsed(a, x)),
    }
}

proof fn lemma_item_join(
    toks: Seq<TokenView>,
    p: int,
    a: AstModel,
    x: AstModel,
    pending: Seq<AttrModel>,
)
    requires
        0 <= p < toks.len(),
    ensures
        item_step(toks, p, join_ast(a, x), pending) == join_step(a, item_step(toks, p, x, pending)),
{
    let t = toks[p];
    let j = join_ast(a, x);
    if t.typ == TokenType::Package || t.typ == TokenType::Import {
        if let Some(n) = tok_at(toks, p + 1) {
            let (name, q) = dotted_spec(toks, p + 2, n.text);
            assert(j.package + name =~= a.package + (x.package + name));
            assert(j.import.push(name) =~= a.import + x.import.push(name));
            assert(AstModel { package: j.package + name, ..j } =~= join_ast(
                a,
                AstModel { package: x.package + name, ..x },
            ));
            assert(AstModel { import: j.import.push(name), ..j } =~= join_ast(
                a,
                AstModel { import: x.import.push(name), ..x },
            ));
        }
    } else if t.typ == TokenType::Const || t.typ == TokenType::Option {
        if let Some(n) = tok_at(toks, p + 1) {
            let p3 = step(toks, p + 2);
            if let Some(v) = tok_at(toks, p3) {
                let c = ConstModel { name: n.text, value: v.text };
                let h = HintModel { name: n.text, hint: v.text };
                assert(j.consts.push(c) =~= a.consts + x.consts.push(c));
                assert(j.options.push(h) =~= a.options + x.options.push(h));
                assert(AstModel { consts: j.consts.push(c), ..j } =~= join_ast(
                    a,
                    AstModel { consts: x.consts.push(c), ..x },
                ));
                assert(AstModel { options: j.options.push(h), ..j } =~= join_ast(
                    a,
                    AstModel { options: x.options.push(h), ..x },
                ));
            }
        }
    } else if t.typ == TokenType::Frame || t.typ == TokenType::Photon {
        if let Some(n) = tok_at(toks, p + 1) {
            if let Some(q) = brace_spec(toks, p + 2) {
                if let Parsed::Done((fields, res), r) = frame_body_spec(
                    toks,
                    q + 1,
                    Seq::empty(),
                    Seq::empty(),
                ) {
                    let f = FrameModel { name: n.text, attrs: pending, fields, reservations: res };
                    assert(j.frames.push(f) =~= a.frames + x.frames.push(f));
                    assert(AstModel { frames: j.frames.push(f), ..j } =~= join_ast(
                        a,
                        AstModel { frames: x.frames.push(f), ..x },
                    ));
                }
                if let Some((msgs, r)) = messages_spec(toks, q + 1, n.text, Seq::empty()) {
                    let ph = PhotonModel { name: n.text, attrs: pending, messages: msgs };
                    assert(j.synqs.push(ph) =~= a.synqs + x.synqs.push(ph));
                    assert(AstModel { synqs: j.synqs.push(ph), ..j } =~= join_ast(
                        a,
                        AstModel { synqs: x.synqs.push(ph), ..x },
                    ));
                }
            }
        }
    }
}

proof fn lemma_items_join(
    toks: Seq<TokenView>,
    p: int,
    a: AstModel,
    x: AstModel,
    pending: Seq<AttrModel>,
)
    requires
        0 <= p,
    ensures
        items_spec(toks, p, join_ast(a, x), pending) == join_parsed(
            a,
            items_spec(toks, p, x, pending),
        ),
    decreases toks.len() + 1 - p,
{
    if p < toks.len() {
        lemma_items_unfold(toks, p, join_ast(a, x), pending);
        lemma_items_unfold(toks, p, x, pending);
        lemma_item_step_progress(toks, p, x, pending);
        lemma_item_join(toks, p, a, x, pending);
        if let ItemStep::Next(q, x1, pd) = item_step(toks, p, x, pending) {
            lemma_items_join(toks, q, a, x1, pd);
        }
    }
}

/// Reading from `p` goes from item to item and stops, at top level, at
/// position `e` with the tree `result` and no attribute held.
pub open spec fn reaches(
    toks: Seq<TokenView>,
    p: int,
    ast: AstModel,
    pending: Seq<AttrModel>,
    e: int,
    result: AstModel,
) -> bool
    decreases e - p,
{
    if p == e {
        ast == result && pending.len() == 0
    } else if 0 <= p < e && p < toks.len() {
        match item_step(toks, p, ast, pending) {
            ItemStep::Next(q, a, pd) => p < q <= e && reaches(toks, q, a, pd, e, result),
            ItemStep::Stop(_) => false,
        }
    } else {
        false
    }
}

proof fn lemma_reaches(
    t1: Seq<TokenView>,
    t2: Seq<TokenView>,
    m: int,
    p: int,
    ast: AstModel,
    pending: Seq<AttrModel>,
    e: int,
    result: AstModel,
)
    requires
        agree(t1, t2, 0, m),
        e < m,
        reaches(t1, p, ast, pending, e, result),
    ensures
        items_spec(t2, p, ast, pending) == items_spec(t2, e, result, Seq::empty()),
    decreases e - p,
{
    if p != e {
        let (a, pd, q) = match item_step(t1, p, ast, pending) {
            ItemStep::Next(q, a, pd) => (a, pd, q),
            ItemStep::Stop(_) => (ast, pending, p),
        };
        reloc_item(t1, t2, 0, m, p, ast, pending);
        lemma_items_unfold(t2, p, ast, pending);
        lemma_reaches(t1, t2, m, q, a, pd, e, result);
    } else {
        assert(pending =~= Seq::<AttrModel>::empty());
    }
}

/// Law: where reading the tokens `xa` of a first source, followed by an
/// end-of-file token, stops at top level on the line break that ends `xa`
/// with the tree `a` and no attribute held, parsing `xa` alone gives `a`;
/// and parsing `xa` followed by the tokens `tb` of a second source gives
/// what parsing `tb` gives, `a` joined before its tree (packages run
/// together, every list of `a` followed by that of `tb`'s tree), at
/// positions moved past `xa`; an error or a panic of `tb` stays the same.
pub proof fn law_parse_joined(xa: Seq<TokenView>, eof: TokenView, tb: Seq<TokenView>, a: AstModel)
    requires
        xa.len() >= 1,
        xa[xa.len() - 1].typ == TokenType::Newline,
        eof.typ == TokenType::Eof,
        reaches(xa.push(eof), 0, empty_ast(), Seq::empty(), xa.len() - 1, a),
    ensures
        parse_spec(xa.push(eof)) == Parsed::Done(a, xa.len() as int),
        parse_spec(xa + tb) == shift_parsed(join_parsed(a, parse_spec(tb)), xa.len() as int),
        parse_spec(tb) matches Parsed::Done(b, k) ==> parse_spec(xa + tb) == Parsed::Done(
            join_ast(a, b),
            xa.len() + k,
        ),
{
    let n = xa.len() as int;
    let s = xa.push(eof);
    let t = xa + tb;
    let e = Seq::<AttrModel>::empty();
    assert(agree(s, s, 0, n));
    assert(agree(s, t, 0, n)) by {
        assert forall|k: int| 0 <= k < n implies t[k + 0] == #[trigger] s[k] by {
            assert(t[k] == xa[k]);
            assert(s[k] == xa[k]);
        }
    }
    lemma_reaches(s, s, n, 0, empty_ast(), e, n - 1, a);
    lemma_reaches(s, t, n, 0, empty_ast(), e, n - 1, a);
    assert(s[n - 1] == xa[n - 1]);
    assert(t[n - 1] == xa[n - 1]);
    lemma_items_unfold(s, n - 1, a, e);
    lemma_items_unfold(t, n - 1, a, e);
    lemma_items_unfold(s, n, a, e);
    assert(s[n] == eof);
    assert(agree(tb, t, n, tb.len() as int)) by {
        assert forall|k: int| 0 <= k < tb.len() implies t[k + n] == #[trigger] tb[k] by {}
    }
    reloc_items(tb, t, n, 0, a, e);
    assert(join_ast(a, empty_ast()) =~= a) by {
        assert(a.package + Seq::<char>::empty() =~= a.package);
        assert(a.import + Seq::<Seq<char>>::empty() =~= a.import);
        assert(a.options + Seq::<HintModel>::empty() =~= a.options);
        assert(a.consts + Seq::<ConstModel>::empty() =~= a.consts);
        assert(a.enums + Seq::<crate::synq::ast::EnumModel>::empty() =~= a.enums);
        assert(a.frames + Seq::<FrameModel>::empty() =~= a.frames);
        assert(a.synqs + Seq::<PhotonModel>::empty() =~= a.synqs);
    }
    lemma_items_join(tb, 0, a, empty_ast(), e);
}

} // verus!
