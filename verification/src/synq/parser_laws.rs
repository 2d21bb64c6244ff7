//! Laws of the parser: where the attributes written before a declaration
//! go.
use crate::synq::ast::{
    AstModel, AttrModel, ConstModel, FieldModel, FrameModel, HintModel, PhotonModel,
};
use crate::synq::lexer::{TokenType, TokenView};
use crate::synq::parser::{
    brace_spec, dotted_spec, frame_body_spec, items_spec, lemma_brace_progress,
    lemma_dotted_progress, lemma_frame_body_progress, lemma_messages_progress, messages_spec, step,
    tok_at, typ_at, Parsed,
};
use vstd::prelude::*;

verus! {

/// `r` keeps the frames and photons of `a`, in their places.
pub open spec fn keeps_declarations(r: AstModel, a: AstModel) -> bool {
    &&& r.frames.len() >= a.frames.len()
    &&& forall|i: int| 0 <= i < a.frames.len() ==> r.frames[i] == #[trigger] a.frames[i]
    &&& r.synqs.len() >= a.synqs.len()
    &&& forall|i: int| 0 <= i < a.synqs.len() ==> r.synqs[i] == #[trigger] a.synqs[i]
}

/// Reading on only adds declarations: those already read stay as they are.
pub proof fn lemma_items_keep_declarations(
    toks: Seq<TokenView>,
    p: int,
    ast: AstModel,
    pending: Seq<AttrModel>,
)
    ensures
        items_spec(toks, p, ast, pending) matches Parsed::Done(r, _) ==> keeps_declarations(r, ast),
    decreases toks.len() - p,
{
    if 0 <= p < toks.len() {
        let t = toks[p];
        if t.typ == TokenType::Eof {
        } else if t.typ == TokenType::Package || t.typ == TokenType::Import {
            if let Some(n) = tok_at(toks, p + 1) {
                let (name, q) = dotted_spec(toks, p + 2, n.text);
                lemma_dotted_progress(toks, p + 2, n.text);
                if t.typ == TokenType::Package {
                    lemma_items_keep_declarations(
                        toks,
                        q,
                        AstModel { package: ast.package + name, ..ast },
                        pending,
                    );
                } else {
                    lemma_items_keep_declarations(
                        toks,
                        q,
                        AstModel { import: ast.import.push(name), ..ast },
                        pending,
                    );
                }
            }
        } else if t.typ == TokenType::Const || t.typ == TokenType::Option {
            if let Some(n) = tok_at(toks, p + 1) {
                let p3 = step(toks, p + 2);
                if let Some(v) = tok_at(toks, p3) {
                    if t.typ == TokenType::Const {
                        lemma_items_keep_declarations(
                            toks,
                            p3 + 1,
                            AstModel {
                                consts: ast.consts.push(ConstModel { name: n.text, value: v.text }),
                                ..ast
                            },
                            pending,
                        );
                    } else {
                        lemma_items_keep_declarations(
                            toks,
                            p3 + 1,
                            AstModel {
                                options: ast.options.push(HintModel { name: n.text, hint: v.text }),
                                ..ast
                            },
                            pending,
                        );
                    }
                }
            }
        } else if t.typ == TokenType::Attribute {
            if let Some(k) = tok_at(toks, p + 1) {
                let p2 = p + 2;
                if typ_at(toks, p2) == Some(TokenType::Ident) {
                    lemma_items_keep_declarations(
                        toks,
                        p2 + 1,
                        ast,
                        pending.push(AttrModel { key: k.text, val: toks[p2].text }),
                    );
                } else {
                    lemma_items_keep_declarations(
                        toks,
                        p2,
                        ast,
                        pending.push(AttrModel { key: k.text, val: Seq::empty() }),
                    );
                }
            }
        } else if t.typ == TokenType::Frame || t.typ == TokenType::Photon {
            if let Some(n) = tok_at(toks, p + 1) {
                if let Some(q) = brace_spec(toks, p + 2) {
                    lemma_brace_progress(toks, p + 2);
                    if t.typ == TokenType::Frame {
                        if let Parsed::Done((fields, res), r) = frame_body_spec(
                            toks,
                            q + 1,
                            Seq::empty(),
                            Seq::empty(),
                        ) {
                            lemma_frame_body_progress(toks, q + 1, Seq::empty(), Seq::empty());
                            let a1 = AstModel {
                                frames: ast.frames.push(
                                    FrameModel {
                                        name: n.text,
                                        attrs: pending,
                                        fields,
                                        reservations: res,
                                    },
                                ),
                                ..ast
                            };
                            lemma_items_keep_declarations(toks, r, a1, Seq::empty());
                            assert(keeps_declarations(a1, ast));
                        }
                    } else {
                        if let Some((msgs, r)) = messages_spec(toks, q + 1, n.text, Seq::empty()) {
                            lemma_messages_progress(toks, q + 1, n.text, Seq::empty());
                            let a1 = AstModel {
                                synqs: ast.synqs.push(
                                    PhotonModel { name: n.text, attrs: pending, messages: msgs },
                                ),
                                ..ast
                            };
                            lemma_items_keep_declarations(toks, r + 1, a1, Seq::empty());
                            assert(keeps_declarations(a1, ast));
                        }
                    }
                }
            }
        } else {
            lemma_items_keep_declarations(toks, p + 1, ast, pending);
        }
    }
}

/// Law: a frame or photon takes exactly the attributes held when its
/// keyword is read (those written since the previous frame or photon, in
/// order), and keeps them to the end; after it, none are held.
pub proof fn law_declaration_takes_held_attributes(
    toks: Seq<TokenView>,
    p: int,
    ast: AstModel,
    pending: Seq<AttrModel>,
)
    requires
        0 <= p < toks.len(),
        toks[p].typ == TokenType::Frame || toks[p].typ == TokenType::Photon,
    ensures
        items_spec(toks, p, ast, pending) matches Parsed::Done(r, _) ==> {
            &&& toks[p].typ == TokenType::Frame ==> r.frames.len() > ast.frames.len()
                && r.frames[ast.frames.len() as int].attrs == pending
            &&& toks[p].typ == TokenType::Photon ==> r.synqs.len() > ast.synqs.len()
                && r.synqs[ast.synqs.len() as int].attrs == pending
        },
{
    let t = toks[p];
    if let Some(n) = tok_at(toks, p + 1) {
        if let Some(q) = brace_spec(toks, p + 2) {
            lemma_brace_progress(toks, p + 2);
            if t.typ == TokenType::Frame {
                if let Parsed::Done((fields, res), r) = frame_body_spec(
                    toks,
                    q + 1,
                    Seq::empty(),
                    Seq::empty(),
                ) {
                    lemma_frame_body_progress(toks, q + 1, Seq::empty(), Seq::empty());
                    let a1 = AstModel {
                        frames: ast.frames.push(
                            FrameModel { name: n.text, attrs: pending, fields, reservations: res },
                        ),
                        ..ast
                    };
                    lemma_items_keep_declarations(toks, r, a1, Seq::empty());
                    assert(a1.frames[ast.frames.len() as int].attrs == pending);
                }
            } else {
                if let Some((msgs, r)) = messages_spec(toks, q + 1, n.text, Seq::empty()) {
                    lemma_messages_progress(toks, q + 1, n.text, Seq::empty());
                    let a1 = AstModel {
                        synqs: ast.synqs.push(
                            PhotonModel { name: n.text, attrs: pending, messages: msgs },
                        ),
                        ..ast
                    };
                    lemma_items_keep_declarations(toks, r + 1, a1, Seq::empty());
                    assert(a1.synqs[ast.synqs.len() as int].attrs == pending);
                }
            }
        }
    }
}

/// Law: an `@` with a key is held for the next declaration, after those
/// already held, with the identifier after the key as its value (or an
/// empty value); nothing else changes.
pub proof fn law_attribute_is_held(
    toks: Seq<TokenView>,
    p: int,
    ast: AstModel,
    pending: Seq<AttrModel>,
)
    requires
        0 <= p,
        p + 1 < toks.len(),
        toks[p].typ == TokenType::Attribute,
    ensures
        typ_at(toks, p + 2) == Some(TokenType::Ident) ==> items_spec(toks, p, ast, pending)
            == items_spec(
            toks,
            p + 3,
            ast,
            pending.push(AttrModel { key: toks[p + 1].text, val: toks[p + 2].text }),
        ),
        typ_at(toks, p + 2) != Some(TokenType::Ident) ==> items_spec(toks, p, ast, pending)
            == items_spec(
            toks,
            p + 2,
            ast,
            pending.push(AttrModel { key: toks[p + 1].text, val: Seq::empty() }),
        ),
{
}

/// Law: a frame's line `H NAME TYPE`, where `H` is one of the words
/// `repeated`, `optional`, `oneof`,
/// `required`, is one field with hint `H`, name `NAME` and
/// type `TYPE`; reading goes on after it.
pub proof fn law_hinted_field(
    toks: Seq<TokenView>,
    p: int,
    fields: Seq<FieldModel>,
    res: Seq<crate::synq::ast::ReservedModel>,
)
    requires
        0 <= p,
        p + 2 < toks.len(),
        toks[p].text == "repeated"@ || toks[p].text == "optional"@ || toks[p].text == "oneof"@
            || toks[p].text == "required"@,
        toks[p].typ != TokenType::Rbrace && toks[p].typ != TokenType::Eof && toks[p].typ
            != TokenType::Newline,
    ensures
        crate::synq::parser::frame_body_spec(toks, p, fields, res) == crate::synq::parser::frame_body_spec(
            toks,
            p + 3,
            fields.push(
                FieldModel {
                    hint: Some(toks[p].text),
                    typ: toks[p + 2].text,
                    name: toks[p + 1].text,
                    reservations: None,
                },
            ),
            res,
        ),
{
    reveal_strlit("reserved");
    reveal_strlit("repeated");
    reveal_strlit("optional");
    reveal_strlit("oneof");
    assert("repeated"@[2] != "reserved"@[2]);
    assert("optional"@[0] != "reserved"@[0]);
    assert("oneof"@.len() != "reserved"@.len());
    reveal_strlit("required");
    assert("required"@[2] != "reserved"@[2]);
}

/// Law: a frame's line `NAME TYPE` whose first word is none of the hint
/// words `repeated`, `optional`, `oneof`,
/// `required` (nor `reserved`) is one field without a
/// hint, with name `NAME` and type `TYPE`; reading goes on after it.
pub proof fn law_plain_field(
    toks: Seq<TokenView>,
    p: int,
    fields: Seq<FieldModel>,
    res: Seq<crate::synq::ast::ReservedModel>,
)
    requires
        0 <= p,
        p + 1 < toks.len(),
        !(toks[p].text == "repeated"@ || toks[p].text == "optional"@ || toks[p].text == "oneof"@
            || toks[p].text == "required"@),
        toks[p].text != "reserved"@,
        toks[p].typ != TokenType::Rbrace && toks[p].typ != TokenType::Eof && toks[p].typ
            != TokenType::Newline,
    ensures
        crate::synq::parser::frame_body_spec(toks, p, fields, res) == crate::synq::parser::frame_body_spec(
            toks,
            p + 2,
            fields.push(
                FieldModel {
                    hint: None,
                    typ: toks[p + 1].text,
                    name: toks[p].text,
                    reservations: None,
                },
            ),
            res,
        ),
{
}

/// Law: `const N = V` adds the constant with name `N` and value `V`, and
/// `option N = V` the option with name `N` and hint `V`; reading goes on
/// after `V`.
pub proof fn law_const_and_option(
    toks: Seq<TokenView>,
    p: int,
    ast: AstModel,
    pending: Seq<AttrModel>,
)
    requires
        0 <= p,
        p + 3 < toks.len(),
    ensures
        toks[p].typ == TokenType::Const ==> items_spec(toks, p, ast, pending) == items_spec(
            toks,
            p + 4,
            AstModel {
                consts: ast.consts.push(ConstModel { name: toks[p + 1].text, value: toks[p + 3].text }),
                ..ast
            },
            pending,
        ),
        toks[p].typ == TokenType::Option ==> items_spec(toks, p, ast, pending) == items_spec(
            toks,
            p + 4,
            AstModel {
                options: ast.options.push(HintModel { name: toks[p + 1].text, hint: toks[p + 3].text }),
                ..ast
            },
            pending,
        ),
{
}

/// Law: a message `message NAME ( REQ ) returns ( RES ) { }` reads its
/// name, request and response at their places and has no option block;
/// reading goes on after its `}`.
pub proof fn law_plain_message(toks: Seq<TokenView>, p: int, photon: Seq<char>)
    requires
        0 <= p,
        p + 10 < toks.len(),
        toks[p + 10].typ == TokenType::Rbrace,
    ensures
        crate::synq::parser::message_spec(toks, p, photon) == Some(
            (
                crate::synq::ast::MessageModel {
                    name: toks[p + 1].text,
                    req: toks[p + 3].text,
                    res: toks[p + 7].text,
                    body: None,
                },
                p + 11,
            ),
        ),
{
}

} // verus!
