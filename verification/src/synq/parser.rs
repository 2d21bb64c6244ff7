//! The parser: from a token sequence to an [`Ast`].
//!
//! The grammar is read loosely: most constructs are recognised by their
//! first token, and the tokens that follow are taken by position.
pub use crate::synq::ast::{
    Ast, AstModel, AttrModel, Attribute, BodyOpt, BodyOptModel, Call, CallModel, ConstDecl,
    ConstModel, EnumDecl, EnumModel, FieldDecl, FieldModel, FrameDecl, FrameModel, Hint,
    HintModel, MessageDecl, MessageModel, Opt, OptModel, PhotonDecl, PhotonModel,
    ReservedFieldDecl, ReservedModel,
};
use crate::error::{ParseError, ParseErrorView};
use crate::synq::lexer::{Token, TokenType, TokenView};
use crate::text::{str_eq, to_string};
use crate::synq::ast::lemma_push_deep;
use vstd::string::StringExecFns;
use vstd::prelude::*;

verus! {

/// The result of reading a construct: its value and the position after it,
/// an error, or a panic (which stands also for reading that never ends).
pub enum Parsed<T> {
    Done(T, int),
    Failed(ParseErrorView),
    Panic,
}

/// The token at position `p`, if any.
pub open spec fn tok_at(toks: Seq<TokenView>, p: int) -> Option<TokenView> {
    if 0 <= p < toks.len() {
        Some(toks[p])
    } else {
        None
    }
}

/// The kind of the token at position `p`, if any.
pub open spec fn typ_at(toks: Seq<TokenView>, p: int) -> Option<TokenType> {
    if 0 <= p < toks.len() {
        Some(toks[p].typ)
    } else {
        None
    }
}

/// The position after consuming one token; at the end it stays there.
pub open spec fn step(toks: Seq<TokenView>, p: int) -> int {
    if p < toks.len() {
        p + 1
    } else {
        p
    }
}

/// The hints that may stand before a field or a call.
pub open spec fn is_field_hint(s: Seq<char>) -> bool {
    s == "repeated"@ || s == "optional"@ || s == "oneof"@ || s == "required"@
}

/// The type names that a `reserved` line joins to the entry before them.
pub open spec fn is_type_name(s: Seq<char>) -> bool {
    s == "i8"@ || s == "i16"@ || s == "i32"@ || s == "i64"@ || s == "u8"@ || s == "u16"@ || s
        == "u32"@ || s == "u64"@ || s == "float"@ || s == "string"@ || s == "int"@ || s
        == "uint"@ || s == "bytes"@
}

/// A `.`-separated continuation of a name: while the next token is a dot,
/// the token after it is appended with a dot.
pub open spec fn dotted_spec(toks: Seq<TokenView>, p: int, acc: Seq<char>) -> (Seq<char>, int)
    decreases toks.len() - p,
{
    if typ_at(toks, p) == Some(TokenType::Dot) {
        let p1 = step(toks, p);
        match tok_at(toks, p1) {
            Some(t) => dotted_spec(toks, step(toks, p1), acc + "."@ + t.text),
            None => dotted_spec(toks, step(toks, p1), acc),
        }
    } else {
        (acc, p)
    }
}

/// The position of the first `{` or end-of-file token from `p` on; `None`
/// when the tokens run out first (the reading would never end).
pub open spec fn brace_spec(toks: Seq<TokenView>, p: int) -> Option<int>
    decreases toks.len() - p,
{
    if p < 0 || p >= toks.len() {
        None
    } else if toks[p].typ == TokenType::Lbrace || toks[p].typ == TokenType::Eof {
        Some(p)
    } else {
        brace_spec(toks, p + 1)
    }
}

/// The entries of a `reserved` line, read from `p` (the `reserved` token
/// itself) up to a newline or end of file: a type name is joined to the
/// entry before it by an em dash and added as a new entry; any other token
/// is dropped and the token after it is taken as an entry.
pub open spec fn reserved_spec(toks: Seq<TokenView>, p: int, acc: Seq<Seq<char>>) -> Option<
    (Seq<Seq<char>>, int),
>
    decreases toks.len() - p,
{
    if p < 0 || p >= toks.len() {
        None
    } else if toks[p].typ == TokenType::Newline || toks[p].typ == TokenType::Eof {
        Some((acc, p))
    } else if is_type_name(toks[p].text) {
        if acc.len() == 0 {
            None
        } else {
            reserved_spec(toks, p + 1, acc.push(acc.last() + "—"@ + toks[p].text))
        }
    } else {
        match tok_at(toks, p + 1) {
            Some(t) => reserved_spec(toks, step(toks, p + 1), acc.push(t.text)),
            None => None,
        }
    }
}

/// The body of a frame, from `p` to its closing brace or end of file.
pub open spec fn frame_body_spec(
    toks: Seq<TokenView>,
    p: int,
    fields: Seq<FieldModel>,
    res: Seq<ReservedModel>,
) -> Parsed<(Seq<FieldModel>, Seq<ReservedModel>)>
    decreases toks.len() - p,
{
    if p < 0 || p >= toks.len() {
        Parsed::Panic
    } else {
        let t = toks[p];
        if t.typ == TokenType::Rbrace || t.typ == TokenType::Eof {
            Parsed::Done((fields, res), p)
        } else if t.typ == TokenType::Newline {
            frame_body_spec(toks, p + 1, fields, res)
        } else if t.text == "reserved"@ {
            match reserved_spec(toks, p, Seq::empty()) {
                Some((list, q)) => {
                    proof {
                        lemma_reserved_progress(toks, p, Seq::empty());
                    }
                    frame_body_spec(
                        toks,
                        q,
                        fields,
                        res.push(ReservedModel { reservations: list }),
                    )
                },
                None => Parsed::Panic,
            }
        } else {
            let hint = if is_field_hint(t.text) {
                Some(t.text)
            } else {
                None
            };
            let q0 = if is_field_hint(t.text) {
                p + 1
            } else {
                p
            };
            match tok_at(toks, q0) {
                None => Parsed::Failed(
                    ParseErrorView::Unexpected { typ: "EOF"@, line: t.line, col: t.col },
                ),
                Some(fname) => match tok_at(toks, q0 + 1) {
                    None => Parsed::Failed(
                        ParseErrorView::Unexpected {
                            typ: "EOF"@,
                            line: fname.line,
                            col: fname.col,
                        },
                    ),
                    Some(ftype) => frame_body_spec(
                        toks,
                        q0 + 2,
                        fields.push(
                            FieldModel {
                                hint,
                                typ: ftype.text,
                                name: fname.text,
                                reservations: None,
                            },
                        ),
                        res,
                    ),
                },
            }
        }
    }
}

/// The name of an option block: the texts of the tokens up to `{` or end
/// of file, run together.
pub open spec fn opt_name_spec(toks: Seq<TokenView>, p: int, acc: Seq<char>) -> Option<
    (Seq<char>, int),
>
    decreases toks.len() - p,
{
    if p < 0 || p >= toks.len() {
        None
    } else if toks[p].typ == TokenType::Lbrace || toks[p].typ == TokenType::Eof {
        Some((acc, p))
    } else {
        opt_name_spec(toks, p + 1, acc + toks[p].text)
    }
}

/// The `use` lines at the start of an option block.
pub open spec fn uses_spec(toks: Seq<TokenView>, p: int, acc: Seq<Seq<char>>) -> Option<
    (Seq<Seq<char>>, int),
>
    decreases toks.len() - p,
{
    if typ_at(toks, p) == Some(TokenType::Use) {
        match tok_at(toks, p + 1) {
            Some(t) => uses_spec(toks, step(toks, p + 1), acc.push(t.text)),
            None => None,
        }
    } else {
        Some((acc, p))
    }
}

/// The arguments of `f(...)`, after the `(`: up to and past the `)`, or to
/// the end; `,` tokens are dropped.
pub open spec fn call_args_spec(toks: Seq<TokenView>, p: int, acc: Seq<Seq<char>>) -> (
    Seq<Seq<char>>,
    int,
)
    decreases toks.len() - p,
{
    if p < 0 || p >= toks.len() {
        (acc, p)
    } else if toks[p].typ == TokenType::Rparen {
        (acc, p + 1)
    } else if toks[p].text == ","@ {
        call_args_spec(toks, p + 1, acc)
    } else {
        call_args_spec(toks, p + 1, acc.push(toks[p].text))
    }
}

/// The words after `f` up to a newline, `}` or end of file.
pub open spec fn word_args_spec(toks: Seq<TokenView>, p: int, acc: Seq<Seq<char>>) -> (
    Seq<Seq<char>>,
    int,
)
    decreases toks.len() - p,
{
    if p < 0 || p >= toks.len() {
        (acc, p)
    } else if toks[p].typ == TokenType::Newline || toks[p].typ == TokenType::Rbrace
        || toks[p].typ == TokenType::Eof {
        (acc, p)
    } else {
        word_args_spec(toks, p + 1, acc.push(toks[p].text))
    }
}

/// One call of an option block, from its first token at `p`.
pub open spec fn call_spec(toks: Seq<TokenView>, p: int) -> Option<(CallModel, int)> {
    let t = toks[p];
    let hint = if is_field_hint(t.text) {
        Some(t.text)
    } else {
        None
    };
    let c0 = if is_field_hint(t.text) {
        p + 1
    } else {
        p
    };
    match tok_at(toks, c0) {
        None => None,
        Some(f) => {
            let (fun_name, c2) = dotted_spec(toks, c0 + 1, f.text);
            if typ_at(toks, c2) == Some(TokenType::Lparen) {
                let (params, c3) = call_args_spec(toks, c2 + 1, Seq::empty());
                Some((CallModel { hint, fun_name, fun_params: params, is_call: true }, c3))
            } else {
                let (params, c3) = word_args_spec(toks, c2, Seq::empty());
                Some((CallModel { hint, fun_name, fun_params: params, is_call: false }, c3))
            }
        },
    }
}

/// The calls of an option block, up to its `}` or end of file.
pub open spec fn calls_spec(toks: Seq<TokenView>, p: int, acc: Seq<CallModel>) -> Option<
    (Seq<CallModel>, int),
>
    decreases toks.len() - p,
{
    if p < 0 || p >= toks.len() {
        None
    } else if toks[p].typ == TokenType::Rbrace || toks[p].typ == TokenType::Eof {
        Some((acc, p))
    } else if toks[p].typ == TokenType::Newline {
        calls_spec(toks, p + 1, acc)
    } else {
        match call_spec(toks, p) {
            Some((c, q)) => {
                proof {
                    lemma_call_progress(toks, p);
                }
                calls_spec(toks, q, acc.push(c))
            },
            None => None,
        }
    }
}

/// An option block of a message, from `p` (its first token, which is not
/// `}`); `photon` names the enclosing photon, whose name the block takes.
pub open spec fn option_spec(toks: Seq<TokenView>, p: int, photon: Seq<char>) -> Option<
    (OptModel, int),
> {
    let r2 = step(toks, step(toks, p));
    match opt_name_spec(toks, r2, Seq::empty()) {
        None => None,
        Some((opt_name, r3)) => match uses_spec(toks, step(toks, r3), Seq::empty()) {
            None => None,
            Some((nss, r5)) => match calls_spec(toks, r5, Seq::empty()) {
                None => None,
                Some((calls, r6)) => Some(
                    (
                        OptModel {
                            name: photon,
                            body: BodyOptModel {
                                name: opt_name,
                                namespaces: if nss.len() == 0 {
                                    None
                                } else {
                                    Some(nss)
                                },
                                calls,
                            },
                        },
                        r6,
                    ),
                ),
            },
        },
    }
}

/// A message, from its `message` token at `p`: name, request type and
/// response type are taken at fixed offsets (`message name ( Req ) returns
/// ( Res ) {`), then an option block unless `}` follows, then the `}`.
pub open spec fn message_spec(toks: Seq<TokenView>, p: int, photon: Seq<char>) -> Option<
    (MessageModel, int),
> {
    let q1 = step(toks, p);
    match tok_at(toks, q1) {
        None => None,
        Some(name) => {
            let q3 = step(toks, step(toks, q1));
            match tok_at(toks, q3) {
                None => None,
                Some(req) => {
                    let q7 = step(toks, step(toks, step(toks, step(toks, q3))));
                    match tok_at(toks, q7) {
                        None => None,
                        Some(res) => {
                            let q10 = step(toks, step(toks, step(toks, q7)));
                            if typ_at(toks, q10) != Some(TokenType::Rbrace) {
                                match option_spec(toks, q10, photon) {
                                    None => None,
                                    Some((opt, r)) => Some(
                                        (
                                            MessageModel {
                                                name: name.text,
                                                req: req.text,
                                                res: res.text,
                                                body: Some(opt),
                                            },
                                            step(toks, r),
                                        ),
                                    ),
                                }
                            } else {
                                Some(
                                    (
                                        MessageModel {
                                            name: name.text,
                                            req: req.text,
                                            res: res.text,
                                            body: None,
                                        },
                                        step(toks, q10),
                                    ),
                                )
                            }
                        },
                    }
                },
            }
        },
    }
}

/// The messages of a photon, up to its `}` or end of file; other tokens are
/// passed over.
pub open spec fn messages_spec(
    toks: Seq<TokenView>,
    p: int,
    photon: Seq<char>,
    acc: Seq<MessageModel>,
) -> Option<(Seq<MessageModel>, int)>
    decreases toks.len() - p,
{
    if p < 0 || p >= toks.len() {
        None
    } else if toks[p].typ == TokenType::Rbrace || toks[p].typ == TokenType::Eof {
        Some((acc, p))
    } else if toks[p].typ == TokenType::Message {
        match message_spec(toks, p, photon) {
            None => None,
            Some((m, q)) => {
                proof {
                    lemma_message_progress(toks, p, photon);
                }
                messages_spec(toks, q, photon, acc.push(m))
            },
        }
    } else {
        messages_spec(toks, p + 1, photon, acc)
    }
}

pub proof fn lemma_dotted_progress(toks: Seq<TokenView>, p: int, acc: Seq<char>)
    requires
        0 <= p <= toks.len(),
    ensures
        p <= dotted_spec(toks, p, acc).1 <= toks.len(),
    decreases toks.len() - p,
{
    if typ_at(toks, p) == Some(TokenType::Dot) {
        let p1 = step(toks, p);
        match tok_at(toks, p1) {
            Some(t) => lemma_dotted_progress(toks, step(toks, p1), acc + "."@ + t.text),
            None => lemma_dotted_progress(toks, step(toks, p1), acc),
        }
    }
}

pub proof fn lemma_brace_progress(toks: Seq<TokenView>, p: int)
    requires
        0 <= p,
    ensures
        brace_spec(toks, p) matches Some(q) ==> p <= q < toks.len(),
    decreases toks.len() - p,
{
    if 0 <= p < toks.len() && !(toks[p].typ == TokenType::Lbrace || toks[p].typ
        == TokenType::Eof) {
        lemma_brace_progress(toks, p + 1);
    }
}

pub proof fn lemma_reserved_progress(toks: Seq<TokenView>, p: int, acc: Seq<Seq<char>>)
    requires
        0 <= p,
    ensures
        reserved_spec(toks, p, acc) matches Some((_, q)) ==> p <= q < toks.len() && (q == p
            ==> (toks[p].typ == TokenType::Newline || toks[p].typ == TokenType::Eof)),
    decreases toks.len() - p,
{
    if 0 <= p < toks.len() && !(toks[p].typ == TokenType::Newline || toks[p].typ
        == TokenType::Eof) {
        if is_type_name(toks[p].text) {
            if acc.len() != 0 {
                lemma_reserved_progress(toks, p + 1, acc.push(acc.last() + "—"@ + toks[p].text));
            }
        } else {
            match tok_at(toks, p + 1) {
                Some(t) => lemma_reserved_progress(toks, step(toks, p + 1), acc.push(t.text)),
                None => {},
            }
        }
    }
}

pub proof fn lemma_opt_name_progress(toks: Seq<TokenView>, p: int, acc: Seq<char>)
    requires
        0 <= p,
    ensures
        opt_name_spec(toks, p, acc) matches Some((_, q)) ==> p <= q < toks.len(),
    decreases toks.len() - p,
{
    if 0 <= p < toks.len() && !(toks[p].typ == TokenType::Lbrace || toks[p].typ
        == TokenType::Eof) {
        lemma_opt_name_progress(toks, p + 1, acc + toks[p].text);
    }
}

pub proof fn lemma_uses_progress(toks: Seq<TokenView>, p: int, acc: Seq<Seq<char>>)
    requires
        0 <= p <= toks.len(),
    ensures
        uses_spec(toks, p, acc) matches Some((_, q)) ==> p <= q <= toks.len(),
    decreases toks.len() - p,
{
    if typ_at(toks, p) == Some(TokenType::Use) {
        match tok_at(toks, p + 1) {
            Some(t) => lemma_uses_progress(toks, step(toks, p + 1), acc.push(t.text)),
            None => {},
        }
    }
}

pub proof fn lemma_call_args_progress(toks: Seq<TokenView>, p: int, acc: Seq<Seq<char>>)
    requires
        0 <= p <= toks.len(),
    ensures
        p <= call_args_spec(toks, p, acc).1 <= toks.len(),
    decreases toks.len() - p,
{
    if 0 <= p < toks.len() && toks[p].typ != TokenType::Rparen {
        if toks[p].text == ","@ {
            lemma_call_args_progress(toks, p + 1, acc);
        } else {
            lemma_call_args_progress(toks, p + 1, acc.push(toks[p].text));
        }
    }
}

pub proof fn lemma_word_args_progress(toks: Seq<TokenView>, p: int, acc: Seq<Seq<char>>)
    requires
        0 <= p <= toks.len(),
    ensures
        p <= word_args_spec(toks, p, acc).1 <= toks.len(),
    decreases toks.len() - p,
{
    if 0 <= p < toks.len() && !(toks[p].typ == TokenType::Newline || toks[p].typ
        == TokenType::Rbrace || toks[p].typ == TokenType::Eof) {
        lemma_word_args_progress(toks, p + 1, acc.push(toks[p].text));
    }
}

pub proof fn lemma_call_progress(toks: Seq<TokenView>, p: int)
    requires
        0 <= p < toks.len(),
    ensures
        call_spec(toks, p) matches Some((_, q)) ==> p < q <= toks.len(),
{
    let t = toks[p];
    let c0 = if is_field_hint(t.text) {
        p + 1
    } else {
        p
    };
    match tok_at(toks, c0) {
        None => {},
        Some(f) => {
            lemma_dotted_progress(toks, c0 + 1, f.text);
            let (fun_name, c2) = dotted_spec(toks, c0 + 1, f.text);
            if typ_at(toks, c2) == Some(TokenType::Lparen) {
                lemma_call_args_progress(toks, c2 + 1, Seq::empty());
            } else {
                lemma_word_args_progress(toks, c2, Seq::empty());
            }
        },
    }
}

pub proof fn lemma_calls_progress(toks: Seq<TokenView>, p: int, acc: Seq<CallModel>)
    requires
        0 <= p,
    ensures
        calls_spec(toks, p, acc) matches Some((_, q)) ==> p <= q < toks.len(),
    decreases toks.len() - p,
{
    if 0 <= p < toks.len() && !(toks[p].typ == TokenType::Rbrace || toks[p].typ
        == TokenType::Eof) {
        if toks[p].typ == TokenType::Newline {
            lemma_calls_progress(toks, p + 1, acc);
        } else {
            lemma_call_progress(toks, p);
            match call_spec(toks, p) {
                Some((c, q)) => lemma_calls_progress(toks, q, acc.push(c)),
                None => {},
            }
        }
    }
}

pub proof fn lemma_option_progress(toks: Seq<TokenView>, p: int, photon: Seq<char>)
    requires
        0 <= p <= toks.len(),
    ensures
        option_spec(toks, p, photon) matches Some((_, q)) ==> p <= q < toks.len(),
{
    let r2 = step(toks, step(toks, p));
    lemma_opt_name_progress(toks, r2, Seq::empty());
    match opt_name_spec(toks, r2, Seq::empty()) {
        None => {},
        Some((opt_name, r3)) => {
            lemma_uses_progress(toks, step(toks, r3), Seq::empty());
            match uses_spec(toks, step(toks, r3), Seq::empty()) {
                None => {},
                Some((nss, r5)) => {
                    lemma_calls_progress(toks, r5, Seq::empty());
                },
            }
        },
    }
}

pub proof fn lemma_message_progress(toks: Seq<TokenView>, p: int, photon: Seq<char>)
    requires
        0 <= p < toks.len(),
    ensures
        message_spec(toks, p, photon) matches Some((_, q)) ==> p < q <= toks.len(),
{
    let q1 = step(toks, p);
    let q3 = step(toks, step(toks, q1));
    let q7 = step(toks, step(toks, step(toks, step(toks, q3))));
    let q10 = step(toks, step(toks, step(toks, q7)));
    if typ_at(toks, q10) != Some(TokenType::Rbrace) {
        lemma_option_progress(toks, q10, photon);
    }
}


/// The empty syntax tree.
pub open spec fn empty_ast() -> AstModel {
    AstModel {
        package: Seq::empty(),
        import: Seq::empty(),
        options: Seq::empty(),
        consts: Seq::empty(),
        enums: Seq::empty(),
        frames: Seq::empty(),
        synqs: Seq::empty(),
    }
}

pub proof fn lemma_frame_body_progress(
    toks: Seq<TokenView>,
    p: int,
    fields: Seq<FieldModel>,
    res: Seq<ReservedModel>,
)
    requires
        0 <= p,
    ensures
        frame_body_spec(toks, p, fields, res) matches Parsed::Done(_, q) ==> p <= q < toks.len(),
    decreases toks.len() - p,
{
    if 0 <= p < toks.len() {
        let t = toks[p];
        if t.typ == TokenType::Rbrace || t.typ == TokenType::Eof {
        } else if t.typ == TokenType::Newline {
            lemma_frame_body_progress(toks, p + 1, fields, res);
        } else if t.text == "reserved"@ {
            lemma_reserved_progress(toks, p, Seq::empty());
            match reserved_spec(toks, p, Seq::empty()) {
                Some((list, q)) => lemma_frame_body_progress(
                    toks,
                    q,
                    fields,
                    res.push(ReservedModel { reservations: list }),
                ),
                None => {},
            }
        } else {
            let hint = if is_field_hint(t.text) {
                Some(t.text)
            } else {
                None
            };
            let q0 = if is_field_hint(t.text) {
                p + 1
            } else {
                p
            };
            match tok_at(toks, q0) {
                None => {},
                Some(fname) => match tok_at(toks, q0 + 1) {
                    None => {},
                    Some(ftype) => lemma_frame_body_progress(
                        toks,
                        q0 + 2,
                        fields.push(
                            FieldModel {
                                hint,
                                typ: ftype.text,
                                name: fname.text,
                                reservations: None,
                            },
                        ),
                        res,
                    ),
                },
            }
        }
    }
}

/// The declarations from position `p` on, given the tree built so far and
/// the attributes waiting for the next frame or photon.
///
/// `package` and `import` take a dotted name; `const` and `option` take the
/// tokens at offsets one and three; `@` takes a key and, if an identifier
/// follows, a value, and holds them for the next frame or photon; `frame`
/// and `synq` take a name, pass over tokens up to `{`, and read a body.
/// Any other token is passed over. Reading stops at end of file.
pub open spec fn items_spec(
    toks: Seq<TokenView>,
    p: int,
    ast: AstModel,
    pending: Seq<AttrModel>,
) -> Parsed<AstModel>
    decreases toks.len() - p,
{
    if p < 0 || p >= toks.len() {
        Parsed::Done(ast, p)
    } else {
        let t = toks[p];
        if t.typ == TokenType::Eof {
            Parsed::Done(ast, p)
        } else if t.typ == TokenType::Package || t.typ == TokenType::Import {
            match tok_at(toks, p + 1) {
                None => Parsed::Panic,
                Some(n) => {
                    let (name, q) = dotted_spec(toks, p + 2, n.text);
                    proof {
                        lemma_dotted_progress(toks, p + 2, n.text);
                    }
                    if t.typ == TokenType::Package {
                        items_spec(
                            toks,
                            q,
                            AstModel { package: ast.package + name, ..ast },
                            pending,
                        )
                    } else {
                        items_spec(
                            toks,
                            q,
                            AstModel { import: ast.import.push(name), ..ast },
                            pending,
                        )
                    }
                },
            }
        } else if t.typ == TokenType::Const || t.typ == TokenType::Option {
            match tok_at(toks, p + 1) {
                None => Parsed::Panic,
                Some(n) => {
                    let p3 = step(toks, p + 2);
                    match tok_at(toks, p3) {
                        None => Parsed::Panic,
                        Some(v) => if t.typ == TokenType::Const {
                            items_spec(
                                toks,
                                p3 + 1,
                                AstModel {
                                    consts: ast.consts.push(
                                        ConstModel { name: n.text, value: v.text },
                                    ),
                                    ..ast
                                },
                                pending,
                            )
                        } else {
                            items_spec(
                                toks,
                                p3 + 1,
                                AstModel {
                                    options: ast.options.push(
                                        HintModel { name: n.text, hint: v.text },
                                    ),
                                    ..ast
                                },
                                pending,
                            )
                        },
                    }
                },
            }
        } else if t.typ == TokenType::Attribute {
            match tok_at(toks, p + 1) {
                None => Parsed::Failed(
                    ParseErrorView::Unexpected { typ: "EOF"@, line: t.line, col: t.col },
                ),
                Some(k) => {
                    let p2 = p + 2;
                    if typ_at(toks, p2) == Some(TokenType::Ident) {
                        items_spec(
                            toks,
                            p2 + 1,
                            ast,
                            pending.push(AttrModel { key: k.text, val: toks[p2].text }),
                        )
                    } else {
                        items_spec(
                            toks,
                            p2,
                            ast,
                            pending.push(AttrModel { key: k.text, val: Seq::empty() }),
                        )
                    }
                },
            }
        } else if t.typ == TokenType::Frame || t.typ == TokenType::Photon {
            match tok_at(toks, p + 1) {
                None => Parsed::Panic,
                Some(n) => match brace_spec(toks, p + 2) {
                    None => Parsed::Panic,
                    Some(q) => {
                        proof {
                            lemma_brace_progress(toks, p + 2);
                        }
                        if t.typ == TokenType::Frame {
                            match frame_body_spec(toks, q + 1, Seq::empty(), Seq::empty()) {
                                Parsed::Done((fields, res), r) => {
                                    proof {
                                        lemma_frame_body_progress(
                                            toks,
                                            q + 1,
                                            Seq::empty(),
                                            Seq::empty(),
                                        );
                                    }
                                    items_spec(
                                        toks,
                                        r,
                                        AstModel {
                                            frames: ast.frames.push(
                                                FrameModel {
                                                    name: n.text,
                                                    attrs: pending,
                                                    fields,
                                                    reservations: res,
                                                },
                                            ),
                                            ..ast
                                        },
                                        Seq::empty(),
                                    )
                                },
                                Parsed::Failed(e) => Parsed::Failed(e),
                                Parsed::Panic => Parsed::Panic,
                            }
                        } else {
                            match messages_spec(toks, q + 1, n.text, Seq::empty()) {
                                Some((msgs, r)) => {
                                    proof {
                                        lemma_messages_progress(toks, q + 1, n.text, Seq::empty());
                                    }
                                    items_spec(
                                        toks,
                                        r + 1,
                                        AstModel {
                                            synqs: ast.synqs.push(
                                                PhotonModel {
                                                    name: n.text,
                                                    attrs: pending,
                                                    messages: msgs,
                                                },
                                            ),
                                            ..ast
                                        },
                                        Seq::empty(),
                                    )
                                },
                                None => Parsed::Panic,
                            }
                        }
                    },
                },
            }
        } else {
            items_spec(toks, p + 1, ast, pending)
        }
    }
}

pub proof fn lemma_messages_progress(
    toks: Seq<TokenView>,
    p: int,
    photon: Seq<char>,
    acc: Seq<MessageModel>,
)
    requires
        0 <= p,
    ensures
        messages_spec(toks, p, photon, acc) matches Some((_, q)) ==> p <= q < toks.len(),
    decreases toks.len() - p,
{
    if 0 <= p < toks.len() && !(toks[p].typ == TokenType::Rbrace || toks[p].typ
        == TokenType::Eof) {
        if toks[p].typ == TokenType::Message {
            lemma_message_progress(toks, p, photon);
            match message_spec(toks, p, photon) {
                Some((m, q)) => lemma_messages_progress(toks, q, photon, acc.push(m)),
                None => {},
            }
        } else {
            lemma_messages_progress(toks, p + 1, photon, acc);
        }
    }
}

/// What parsing a whole token sequence gives.
pub open spec fn parse_spec(toks: Seq<TokenView>) -> Parsed<AstModel> {
    items_spec(toks, 0, empty_ast(), Seq::empty())
}


/// Whether an executable outcome is the one that `s` describes, the cursor
/// ending at `pos`.
pub open spec fn matches_parsed<T: DeepView>(
    res: Option<Result<T, ParseError>>,
    s: Parsed<T::V>,
    pos: int,
) -> bool {
    match res {
        None => s is Panic,
        Some(Ok(v)) => s == Parsed::Done(v.deep_view(), pos),
        Some(Err(e)) => s == Parsed::<T::V>::Failed(e@),
    }
}

/// Whether an executable outcome is the one that `s` describes, the cursor
/// ending at `pos`.
pub open spec fn matches_option<T: DeepView>(res: Option<T>, s: Option<(T::V, int)>, pos: int) -> bool {
    match res {
        None => s is None,
        Some(v) => s == Some((v.deep_view(), pos)),
    }
}

fn is_field_hint_exec(s: &str) -> (res: bool)
    ensures
        res == is_field_hint(s@),
{
    str_eq(s, "repeated") || str_eq(s, "optional") || str_eq(s, "oneof") || str_eq(s, "required")
}

fn is_type_name_exec(s: &str) -> (res: bool)
    ensures
        res == is_type_name(s@),
{
    str_eq(s, "i8") || str_eq(s, "i16") || str_eq(s, "i32") || str_eq(s, "i64") || str_eq(s, "u8")
        || str_eq(s, "u16") || str_eq(s, "u32") || str_eq(s, "u64") || str_eq(s, "float")
        || str_eq(s, "string") || str_eq(s, "int") || str_eq(s, "uint") || str_eq(s, "bytes")
}

/// A cursor over a token sequence.
pub struct Parser<'tokens, 'a> {
    tokens: &'tokens Vec<Token<'a>>,
    pos: usize,
}

impl<'tokens, 'a> Parser<'tokens, 'a> {
    /// The tokens being parsed, as values.
    pub closed spec fn toks(&self) -> Seq<TokenView> {
        self.tokens.deep_view()
    }

    /// The position of the next token to read.
    pub closed spec fn position(&self) -> int {
        self.pos as int
    }

    /// The position stays within the tokens (at most one past the last).
    pub closed spec fn wf(&self) -> bool {
        self.pos <= self.tokens@.len()
    }

    /// A parser at the first token of `tokens`.
    pub fn new(tokens: &'tokens Vec<Token<'a>>) -> (res: Self)
        ensures
            res.wf(),
            res.toks() == tokens.deep_view(),
            res.position() == 0,
    {
        Self { tokens, pos: 0 }
    }

    proof fn lemma_wf(&self)
        requires
            self.wf(),
        ensures
            0 <= self.position() <= self.toks().len(),
            self.toks().len() == self.tokens@.len(),
    {
    }

    /// The token at the cursor, if any.
    fn peek(&self) -> (res: Option<Token<'a>>)
        requires
            self.wf(),
        ensures
            res.deep_view() == tok_at(self.toks(), self.position()),
    {
        if self.pos < self.tokens.len() {
            Some(self.tokens[self.pos])
        } else {
            None
        }
    }

    /// The token at the cursor, if any; the cursor moves past it.
    fn advance(&mut self) -> (res: Option<Token<'a>>)
        requires
            old(self).wf(),
        ensures
            final(self).wf(),
            final(self).toks() == old(self).toks(),
            final(self).position() == step(old(self).toks(), old(self).position()),
            res.deep_view() == tok_at(old(self).toks(), old(self).position()),
    {
        let tok = self.peek();
        if self.pos < self.tokens.len() {
            self.pos = self.pos + 1;
        }
        tok
    }

    /// The kind of the token at the cursor, if any.
    fn peek_type(&self) -> (res: Option<TokenType>)
        requires
            self.wf(),
        ensures
            res == typ_at(self.toks(), self.position()),
    {
        if self.pos < self.tokens.len() {
            Some(self.tokens[self.pos].typ)
        } else {
            None
        }
    }

    /// Whether the token at the cursor is of kind `t`.
    fn at(&self, t: TokenType) -> (res: bool)
        requires
            self.wf(),
        ensures
            res == (typ_at(self.toks(), self.position()) == Some(t)),
    {
        match self.peek_type() {
            Some(u) => u == t,
            None => false,
        }
    }

    fn dotted(&mut self, first: String) -> (res: String)
        requires
            old(self).wf(),
        ensures
            final(self).wf(),
            final(self).toks() == old(self).toks(),
            (res@, final(self).position()) == dotted_spec(
                old(self).toks(),
                old(self).position(),
                first@,
            ),
    {
        let ghost toks = self.toks();
        let ghost target = dotted_spec(toks, self.position(), first@);
        let mut acc = first;
        while self.at(TokenType::Dot)
            invariant
                self.wf(),
                self.toks() == toks,
                toks == old(self).toks(),
                target == dotted_spec(old(self).toks(), old(self).position(), first@),
                dotted_spec(toks, self.position(), acc@) == target,
            decreases toks.len() - self.position(),
        {
            proof {
                self.lemma_wf();
            }
            self.advance();
            match self.advance() {
                Some(part) => {
                    acc.append(".");
                    acc.append(part.lexeme);
                },
                None => {},
            }
        }
        acc
    }

    fn skip_to_brace(&mut self) -> (res: bool)
        requires
            old(self).wf(),
        ensures
            final(self).wf(),
            final(self).toks() == old(self).toks(),
            res <==> brace_spec(old(self).toks(), old(self).position()) is Some,
            res ==> brace_spec(old(self).toks(), old(self).position()) == Some(
                final(self).position(),
            ),
    {
        let ghost toks = self.toks();
        let ghost target = brace_spec(toks, self.position());
        loop
            invariant
                self.wf(),
                self.toks() == toks,
                toks == old(self).toks(),
                target == brace_spec(old(self).toks(), old(self).position()),
                brace_spec(toks, self.position()) == target,
            decreases toks.len() - self.position(),
        {
            proof {
                self.lemma_wf();
            }
            match self.peek_type() {
                None => return false,
                Some(t) => {
                    if t == TokenType::Lbrace || t == TokenType::Eof {
                        return true;
                    }
                    self.advance();
                },
            }
        }
    }

    fn reserved(&mut self) -> (res: Option<Vec<String>>)
        requires
            old(self).wf(),
        ensures
            final(self).wf(),
            final(self).toks() == old(self).toks(),
            matches_option(
                res,
                reserved_spec(old(self).toks(), old(self).position(), Seq::empty()),
                final(self).position(),
            ),
    {
        let ghost toks = self.toks();
        let ghost target = reserved_spec(toks, self.position(), Seq::empty());
        let mut acc: Vec<String> = Vec::new();
        assert(acc.deep_view() =~= Seq::<Seq<char>>::empty());
        loop
            invariant
                self.wf(),
                self.toks() == toks,
                toks == old(self).toks(),
                target == reserved_spec(old(self).toks(), old(self).position(), Seq::empty()),
                reserved_spec(toks, self.position(), acc.deep_view()) == target,
            decreases toks.len() - self.position(),
        {
            proof {
                self.lemma_wf();
            }
            match self.peek() {
                None => return None,
                Some(t) => {
                    if t.typ == TokenType::Newline || t.typ == TokenType::Eof {
                        return Some(acc);
                    }
                    self.advance();
                    if is_type_name_exec(t.lexeme) {
                        if acc.len() == 0 {
                            return None;
                        }
                        let mut c = acc[acc.len() - 1].clone();
                        c.append("—");
                        c.append(t.lexeme);
                        let ghost old_acc = acc;
                        let ghost cg = c;
                        acc.push(c);
                        proof {
                            lemma_push_deep(old_acc, acc, cg);
                        }
                    } else {
                        match self.advance() {
                            None => return None,
                            Some(n) => {
                                let c = to_string(n.lexeme);
                                let ghost old_acc = acc;
                                let ghost cg = c;
                                acc.push(c);
                                proof {
                                    lemma_push_deep(old_acc, acc, cg);
                                }
                            },
                        }
                    }
                },
            }
        }
    }

    fn frame_body(&mut self) -> (res: Option<
        Result<(Vec<FieldDecl>, Vec<ReservedFieldDecl>), ParseError>,
    >)
        requires
            old(self).wf(),
        ensures
            final(self).wf(),
            final(self).toks() == old(self).toks(),
            matches_parsed(
                res,
                frame_body_spec(old(self).toks(), old(self).position(), Seq::empty(), Seq::empty()),
                final(self).position(),
            ),
    {
        let ghost toks = self.toks();
        let ghost target = frame_body_spec(toks, self.position(), Seq::empty(), Seq::empty());
        let mut fields: Vec<FieldDecl> = Vec::new();
        let mut reservations: Vec<ReservedFieldDecl> = Vec::new();
        assert(fields.deep_view() =~= Seq::<FieldModel>::empty());
        assert(reservations.deep_view() =~= Seq::<ReservedModel>::empty());
        loop
            invariant
                self.wf(),
                self.toks() == toks,
                toks == old(self).toks(),
                target == frame_body_spec(
                    old(self).toks(),
                    old(self).position(),
                    Seq::empty(),
                    Seq::empty(),
                ),
                frame_body_spec(toks, self.position(), fields.deep_view(), reservations.deep_view())
                    == target,
            decreases toks.len() - self.position(),
        {
            proof {
                self.lemma_wf();
            }
            let t = match self.peek() {
                None => return None,
                Some(t) => t,
            };
            if t.typ == TokenType::Rbrace || t.typ == TokenType::Eof {
                return Some(Ok((fields, reservations)));
            }
            if t.typ == TokenType::Newline {
                self.advance();
                continue;
            }
            if str_eq(t.lexeme, "reserved") {
                proof {
                    lemma_reserved_progress(toks, self.position(), Seq::empty());
                }
                match self.reserved() {
                    None => return None,
                    Some(list) => {
                        let r = ReservedFieldDecl { reservations: list };
                        let ghost old_r = reservations;
                        let ghost rg = r;
                        reservations.push(r);
                        proof {
                            lemma_push_deep(old_r, reservations, rg);
                        }
                    },
                }
            } else {
                let hint = if is_field_hint_exec(t.lexeme) {
                    self.advance();
                    Some(to_string(t.lexeme))
                } else {
                    None
                };
                let fname = match self.advance() {
                    None => {
                        return Some(
                            Err(
                                ParseError::Unexpected {
                                    typ: to_string("EOF"),
                                    line: t.line,
                                    col: t.col,
                                },
                            ),
                        )
                    },
                    Some(f) => f,
                };
                let ftype = match self.advance() {
                    None => {
                        return Some(
                            Err(
                                ParseError::Unexpected {
                                    typ: to_string("EOF"),
                                    line: fname.line,
                                    col: fname.col,
                                },
                            ),
                        )
                    },
                    Some(f) => f,
                };
                let f = FieldDecl {
                    hint,
                    typ: to_string(ftype.lexeme),
                    name: to_string(fname.lexeme),
                    reservations: None,
                };
                let ghost old_f = fields;
                let ghost fg = f;
                fields.push(f);
                proof {
                    lemma_push_deep(old_f, fields, fg);
                }
            }
        }
    }

    fn opt_name(&mut self) -> (res: Option<String>)
        requires
            old(self).wf(),
        ensures
            final(self).wf(),
            final(self).toks() == old(self).toks(),
            matches_option(
                res,
                opt_name_spec(old(self).toks(), old(self).position(), Seq::empty()),
                final(self).position(),
            ),
    {
        let ghost toks = self.toks();
        let ghost target = opt_name_spec(toks, self.position(), Seq::empty());
        let mut acc = String::new();
        loop
            invariant
                self.wf(),
                self.toks() == toks,
                toks == old(self).toks(),
                target == opt_name_spec(old(self).toks(), old(self).position(), Seq::empty()),
                opt_name_spec(toks, self.position(), acc@) == target,
            decreases toks.len() - self.position(),
        {
            proof {
                self.lemma_wf();
            }
            match self.peek() {
                None => return None,
                Some(t) => {
                    if t.typ == TokenType::Lbrace || t.typ == TokenType::Eof {
                        return Some(acc);
                    }
                    self.advance();
                    acc.append(t.lexeme);
                },
            }
        }
    }

    fn uses(&mut self) -> (res: Option<Vec<String>>)
        requires
            old(self).wf(),
        ensures
            final(self).wf(),
            final(self).toks() == old(self).toks(),
            matches_option(
                res,
                uses_spec(old(self).toks(), old(self).position(), Seq::empty()),
                final(self).position(),
            ),
    {
        let ghost toks = self.toks();
        let ghost target = uses_spec(toks, self.position(), Seq::empty());
        let mut acc: Vec<String> = Vec::new();
        assert(acc.deep_view() =~= Seq::<Seq<char>>::empty());
        while self.at(TokenType::Use)
            invariant
                self.wf(),
                self.toks() == toks,
                toks == old(self).toks(),
                target == uses_spec(old(self).toks(), old(self).position(), Seq::empty()),
                uses_spec(toks, self.position(), acc.deep_view()) == target,
            decreases toks.len() - self.position(),
        {
            proof {
                self.lemma_wf();
            }
            self.advance();
            match self.advance() {
                None => return None,
                Some(n) => {
                    let c = to_string(n.lexeme);
                    let ghost old_acc = acc;
                    let ghost cg = c;
                    acc.push(c);
                    proof {
                        lemma_push_deep(old_acc, acc, cg);
                    }
                },
            }
        }
        Some(acc)
    }

    fn call_args(&mut self) -> (res: Vec<String>)
        requires
            old(self).wf(),
        ensures
            final(self).wf(),
            final(self).toks() == old(self).toks(),
            (res.deep_view(), final(self).position()) == call_args_spec(
                old(self).toks(),
                old(self).position(),
                Seq::empty(),
            ),
    {
        let ghost toks = self.toks();
        let ghost target = call_args_spec(toks, self.position(), Seq::empty());
        let mut acc: Vec<String> = Vec::new();
        assert(acc.deep_view() =~= Seq::<Seq<char>>::empty());
        loop
            invariant
                self.wf(),
                self.toks() == toks,
                toks == old(self).toks(),
                target == call_args_spec(old(self).toks(), old(self).position(), Seq::empty()),
                call_args_spec(toks, self.position(), acc.deep_view()) == target,
            decreases toks.len() - self.position(),
        {
            proof {
                self.lemma_wf();
            }
            match self.peek() {
                None => return acc,
                Some(t) => {
                    self.advance();
                    if t.typ == TokenType::Rparen {
                        return acc;
                    }
                    if !str_eq(t.lexeme, ",") {
                        let c = to_string(t.lexeme);
                        let ghost old_acc = acc;
                        let ghost cg = c;
                        acc.push(c);
                        proof {
                            lemma_push_deep(old_acc, acc, cg);
                        }
                    }
                },
            }
        }
    }

    fn word_args(&mut self) -> (res: Vec<String>)
        requires
            old(self).wf(),
        ensures
            final(self).wf(),
            final(self).toks() == old(self).toks(),
            (res.deep_view(), final(self).position()) == word_args_spec(
                old(self).toks(),
                old(self).position(),
                Seq::empty(),
            ),
    {
        let ghost toks = self.toks();
        let ghost target = word_args_spec(toks, self.position(), Seq::empty());
        let mut acc: Vec<String> = Vec::new();
        assert(acc.deep_view() =~= Seq::<Seq<char>>::empty());
        loop
            invariant
                self.wf(),
                self.toks() == toks,
                toks == old(self).toks(),
                target == word_args_spec(old(self).toks(), old(self).position(), Seq::empty()),
                word_args_spec(toks, self.position(), acc.deep_view()) == target,
            decreases toks.len() - self.position(),
        {
            proof {
                self.lemma_wf();
            }
            match self.peek() {
                None => return acc,
                Some(t) => {
                    if t.typ == TokenType::Newline || t.typ == TokenType::Rbrace || t.typ
                        == TokenType::Eof {
                        return acc;
                    }
                    self.advance();
                    let c = to_string(t.lexeme);
                    let ghost old_acc = acc;
                    let ghost cg = c;
                    acc.push(c);
                    proof {
                        lemma_push_deep(old_acc, acc, cg);
                    }
                },
            }
        }
    }

    fn call(&mut self) -> (res: Option<Call>)
        requires
            old(self).wf(),
            old(self).position() < old(self).toks().len(),
        ensures
            final(self).wf(),
            final(self).toks() == old(self).toks(),
            matches_option(
                res,
                call_spec(old(self).toks(), old(self).position()),
                final(self).position(),
            ),
    {
        let ghost toks = self.toks();
        let t = match self.peek() {
            None => return None,
            Some(t) => t,
        };
        let hint = if is_field_hint_exec(t.lexeme) {
            self.advance();
            Some(to_string(t.lexeme))
        } else {
            None
        };
        let f = match self.advance() {
            None => return None,
            Some(f) => f,
        };
        let fun_name = self.dotted(to_string(f.lexeme));
        if self.at(TokenType::Lparen) {
            self.advance();
            let params = self.call_args();
            Some(Call { hint, fun_name, fun_params: params, is_call: true })
        } else {
            let params = self.word_args();
            Some(Call { hint, fun_name, fun_params: params, is_call: false })
        }
    }

    fn calls(&mut self) -> (res: Option<Vec<Call>>)
        requires
            old(self).wf(),
        ensures
            final(self).wf(),
            final(self).toks() == old(self).toks(),
            matches_option(
                res,
                calls_spec(old(self).toks(), old(self).position(), Seq::empty()),
                final(self).position(),
            ),
    {
        let ghost toks = self.toks();
        let ghost target = calls_spec(toks, self.position(), Seq::empty());
        let mut acc: Vec<Call> = Vec::new();
        assert(acc.deep_view() =~= Seq::<CallModel>::empty());
        loop
            invariant
                self.wf(),
                self.toks() == toks,
                toks == old(self).toks(),
                target == calls_spec(old(self).toks(), old(self).position(), Seq::empty()),
                calls_spec(toks, self.position(), acc.deep_view()) == target,
            decreases toks.len() - self.position(),
        {
            proof {
                self.lemma_wf();
            }
            match self.peek_type() {
                None => return None,
                Some(t) => {
                    if t == TokenType::Rbrace || t == TokenType::Eof {
                        return Some(acc);
                    }
                    if t == TokenType::Newline {
                        self.advance();
                    } else {
                        proof {
                            lemma_call_progress(toks, self.position());
                        }
                        match self.call() {
                            None => return None,
                            Some(c) => {
                                let ghost old_acc = acc;
                                let ghost cg = c;
                                acc.push(c);
                                proof {
                                    lemma_push_deep(old_acc, acc, cg);
                                }
                            },
                        }
                    }
                },
            }
        }
    }

    fn option(&mut self, photon: &String) -> (res: Option<Opt>)
        requires
            old(self).wf(),
        ensures
            final(self).wf(),
            final(self).toks() == old(self).toks(),
            matches_option(
                res,
                option_spec(old(self).toks(), old(self).position(), photon@),
                final(self).position(),
            ),
    {
        self.advance();
        self.advance();
        let opt_name = match self.opt_name() {
            None => return None,
            Some(n) => n,
        };
        self.advance();
        let nss = match self.uses() {
            None => return None,
            Some(v) => v,
        };
        let namespaces = if nss.len() == 0 {
            None
        } else {
            Some(nss)
        };
        let calls = match self.calls() {
            None => return None,
            Some(c) => c,
        };
        Some(Opt { name: photon.clone(), body: BodyOpt { calls, name: opt_name, namespaces } })
    }

    fn message(&mut self, photon: &String) -> (res: Option<MessageDecl>)
        requires
            old(self).wf(),
        ensures
            final(self).wf(),
            final(self).toks() == old(self).toks(),
            matches_option(
                res,
                message_spec(old(self).toks(), old(self).position(), photon@),
                final(self).position(),
            ),
    {
        self.advance();
        let name = match self.advance() {
            None => return None,
            Some(t) => to_string(t.lexeme),
        };
        self.advance();
        let req = match self.advance() {
            None => return None,
            Some(t) => to_string(t.lexeme),
        };
        self.advance();
        self.advance();
        self.advance();
        let res = match self.advance() {
            None => return None,
            Some(t) => to_string(t.lexeme),
        };
        self.advance();
        self.advance();
        let body = if !self.at(TokenType::Rbrace) {
            match self.option(photon) {
                None => return None,
                Some(o) => Some(o),
            }
        } else {
            None
        };
        self.advance();
        Some(MessageDecl { name, req, res, body })
    }

    fn messages(&mut self, photon: &String) -> (res: Option<Vec<MessageDecl>>)
        requires
            old(self).wf(),
        ensures
            final(self).wf(),
            final(self).toks() == old(self).toks(),
            matches_option(
                res,
                messages_spec(old(self).toks(), old(self).position(), photon@, Seq::empty()),
                final(self).position(),
            ),
    {
        let ghost toks = self.toks();
        let ghost target = messages_spec(toks, self.position(), photon@, Seq::empty());
        let mut acc: Vec<MessageDecl> = Vec::new();
        assert(acc.deep_view() =~= Seq::<MessageModel>::empty());
        loop
            invariant
                self.wf(),
                self.toks() == toks,
                toks == old(self).toks(),
                target == messages_spec(
                    old(self).toks(),
                    old(self).position(),
                    photon@,
                    Seq::empty(),
                ),
                messages_spec(toks, self.position(), photon@, acc.deep_view()) == target,
            decreases toks.len() - self.position(),
        {
            proof {
                self.lemma_wf();
            }
            match self.peek_type() {
                None => return None,
                Some(t) => {
                    if t == TokenType::Rbrace || t == TokenType::Eof {
                        return Some(acc);
                    }
                    if t == TokenType::Message {
                        proof {
                            lemma_message_progress(toks, self.position(), photon@);
                        }
                        match self.message(photon) {
                            None => return None,
                            Some(m) => {
                                let ghost old_acc = acc;
                                let ghost mg = m;
                                acc.push(m);
                                proof {
                                    lemma_push_deep(old_acc, acc, mg);
                                }
                            },
                        }
                    } else {
                        self.advance();
                    }
                },
            }
        }
    }

    /// Parses the tokens from the cursor on, or says that parsing them
    /// would panic or never end (`None`).
    pub fn try_parse(&mut self) -> (res: Option<Result<Ast, ParseError>>)
        requires
            old(self).wf(),
        ensures
            final(self).wf(),
            final(self).toks() == old(self).toks(),
            matches_parsed(
                res,
                items_spec(old(self).toks(), old(self).position(), empty_ast(), Seq::empty()),
                final(self).position(),
            ),
    {
        let ghost toks = self.toks();
        let ghost target = items_spec(toks, self.position(), empty_ast(), Seq::empty());
        let mut ast = Ast {
            package: String::new(),
            import: Vec::new(),
            options: Vec::new(),
            consts: Vec::new(),
            enums: Vec::new(),
            frames: Vec::new(),
            synqs: Vec::new(),
        };
        let mut pending: Vec<Attribute> = Vec::new();
        assert(ast.import.deep_view() =~= Seq::<Seq<char>>::empty());
        assert(ast.options.deep_view() =~= Seq::<HintModel>::empty());
        assert(ast.consts.deep_view() =~= Seq::<ConstModel>::empty());
        assert(ast.enums.deep_view() =~= Seq::<EnumModel>::empty());
        assert(ast.frames.deep_view() =~= Seq::<FrameModel>::empty());
        assert(ast.synqs.deep_view() =~= Seq::<PhotonModel>::empty());
        assert(ast.deep_view() == empty_ast());
        assert(pending.deep_view() =~= Seq::<AttrModel>::empty());
        loop
            invariant
                self.wf(),
                self.toks() == toks,
                toks == old(self).toks(),
                target == items_spec(
                    old(self).toks(),
                    old(self).position(),
                    empty_ast(),
                    Seq::empty(),
                ),
                items_spec(toks, self.position(), ast.deep_view(), pending.deep_view()) == target,
            decreases toks.len() - self.position(),
        {
            proof {
                self.lemma_wf();
            }
            let tok = match self.peek() {
                None => return Some(Ok(ast)),
                Some(t) => t,
            };
            let ghost p = self.position();
            if tok.typ == TokenType::Eof {
                return Some(Ok(ast));
            }
            if tok.typ == TokenType::Package || tok.typ == TokenType::Import {
                self.advance();
                let first = match self.advance() {
                    None => return None,
                    Some(n) => to_string(n.lexeme),
                };
                proof {
                    lemma_dotted_progress(toks, p + 2, first@);
                }
                let name = self.dotted(first);
                if tok.typ == TokenType::Package {
                    ast.package.append(name.as_str());
                } else {
                    let ghost old_v = ast.import;
                    let ghost ng = name;
                    ast.import.push(name);
                    proof {
                        lemma_push_deep(old_v, ast.import, ng);
                    }
                }
            } else if tok.typ == TokenType::Const || tok.typ == TokenType::Option {
                self.advance();
                let name = match self.advance() {
                    None => return None,
                    Some(n) => to_string(n.lexeme),
                };
                self.advance();
                let value = match self.advance() {
                    None => return None,
                    Some(n) => to_string(n.lexeme),
                };
                if tok.typ == TokenType::Const {
                    let c = ConstDecl { name, value };
                    let ghost old_v = ast.consts;
                    let ghost cg = c;
                    ast.consts.push(c);
                    proof {
                        lemma_push_deep(old_v, ast.consts, cg);
                    }
                } else {
                    let h = Hint { name, hint: value };
                    let ghost old_v = ast.options;
                    let ghost hg = h;
                    ast.options.push(h);
                    proof {
                        lemma_push_deep(old_v, ast.options, hg);
                    }
                }
            } else if tok.typ == TokenType::Attribute {
                self.advance();
                let key = match self.advance() {
                    None => {
                        return Some(
                            Err(
                                ParseError::Unexpected {
                                    typ: to_string("EOF"),
                                    line: tok.line,
                                    col: tok.col,
                                },
                            ),
                        )
                    },
                    Some(k) => k,
                };
                let val = if self.at(TokenType::Ident) {
                    match self.advance() {
                        Some(v) => to_string(v.lexeme),
                        None => String::new(),
                    }
                } else {
                    String::new()
                };
                let a = Attribute { key: to_string(key.lexeme), val };
                let ghost old_v = pending;
                let ghost ag = a;
                pending.push(a);
                proof {
                    lemma_push_deep(old_v, pending, ag);
                }
            } else if tok.typ == TokenType::Frame || tok.typ == TokenType::Photon {
                self.advance();
                let name = match self.advance() {
                    None => return None,
                    Some(n) => to_string(n.lexeme),
                };
                proof {
                    lemma_brace_progress(toks, p + 2);
                }
                if !self.skip_to_brace() {
                    return None;
                }
                self.advance();
                if tok.typ == TokenType::Frame {
                    let ghost q = self.position();
                    proof {
                        lemma_frame_body_progress(toks, q, Seq::empty(), Seq::empty());
                    }
                    match self.frame_body() {
                        None => return None,
                        Some(Err(e)) => return Some(Err(e)),
                        Some(Ok((fields, reservations))) => {
                            let attrs = pending;
                            pending = Vec::new();
                            assert(pending.deep_view() =~= Seq::<AttrModel>::empty());
                            let f = FrameDecl { name, attrs, fields, reservations };
                            let ghost old_v = ast.frames;
                            let ghost fg = f;
                            ast.frames.push(f);
                            proof {
                                lemma_push_deep(old_v, ast.frames, fg);
                            }
                        },
                    }
                } else {
                    let ghost q = self.position();
                    proof {
                        lemma_messages_progress(toks, q, name@, Seq::empty());
                    }
                    match self.messages(&name) {
                        None => return None,
                        Some(messages) => {
                            self.advance();
                            let attrs = pending;
                            pending = Vec::new();
                            assert(pending.deep_view() =~= Seq::<AttrModel>::empty());
                            let ph = PhotonDecl { name, attrs, messages };
                            let ghost old_v = ast.synqs;
                            let ghost pg = ph;
                            ast.synqs.push(ph);
                            proof {
                                lemma_push_deep(old_v, ast.synqs, pg);
                            }
                        },
                    }
                }
            } else {
                self.advance();
            }
        }
    }

    /// Parses the tokens from the cursor on into a syntax tree, as
    /// [`items_spec`] describes.
    pub fn parse(&mut self) -> (res: Result<Ast, ParseError>)
        requires
            old(self).wf(),
            !(items_spec(old(self).toks(), old(self).position(), empty_ast(), Seq::empty()) is Panic),
        ensures
            final(self).wf(),
            final(self).toks() == old(self).toks(),
            matches_parsed(
                Some(res),
                items_spec(old(self).toks(), old(self).position(), empty_ast(), Seq::empty()),
                final(self).position(),
            ),
    {
        match self.try_parse() {
            Some(r) => r,
            None => Err(ParseError::Unexpected { typ: String::new(), line: 0, col: 0 }),
        }
    }
}

} // verus!
