//! Laws of the earlier parser: what a field line and a constant or option
//! give.
use crate::codec::parser::{frame_body_spec, items_spec, AstModel};
use crate::synq::ast::{AttrModel, ConstModel, FieldModel, HintModel};
use crate::synq::lexer::{TokenType, TokenView};
use vstd::prelude::*;

verus! {

/// Law: a frame's line `H NAME TYPE`, where `H` is one of the words
/// `repeated`, `optional`,
/// `oneof`, is one field with hint `H`, name `NAME` and
/// type `TYPE`; reading goes on after it.
pub proof fn law_hinted_field(
    toks: Seq<TokenView>,
    p: int,
    fields: Seq<FieldModel>,
    res: Seq<crate::synq::ast::ReservedModel>,
)
    requires
        0 <= p,
        p + 2 < toks.len(),
        toks[p].text == "repeated"@ || toks[p].text == "optional"@ || toks[p].text == "oneof"@,
        toks[p].typ != TokenType::Rbrace && toks[p].typ != TokenType::Eof && toks[p].typ
            != TokenType::Newline,
    ensures
        frame_body_spec(toks, p, fields, res) == frame_body_spec(
            toks,
            p + 3,
            fields.push(
                FieldModel {
                    hint: Some(toks[p].text),
                    typ: toks[p + 2].text,
                    name: toks[p + 1].text,
                    reservations: None,
                },
            ),
            res,
        ),
{
    reveal_strlit("reserved");
    reveal_strlit("repeated");
    reveal_strlit("optional");
    reveal_strlit("oneof");
    assert("repeated"@[2] != "reserved"@[2]);
    assert("optional"@[0] != "reserved"@[0]);
    assert("oneof"@.len() != "reserved"@.len());
}

/// Law: a frame's line `NAME TYPE` whose first word is none of the hint
/// words `repeated`, `optional`,
/// `oneof` (nor `reserved`) is one field without a
/// hint, with name `NAME` and type `TYPE`; reading goes on after it.
pub proof fn law_plain_field(
    toks: Seq<TokenView>,
    p: int,
    fields: Seq<FieldModel>,
    res: Seq<crate::synq::ast::ReservedModel>,
)
    requires
        0 <= p,
        p + 1 < toks.len(),
        !(toks[p].text == "repeated"@ || toks[p].text == "optional"@ || toks[p].text == "oneof"@),
        toks[p].text != "reserved"@,
        toks[p].typ != TokenType::Rbrace && toks[p].typ != TokenType::Eof && toks[p].typ
            != TokenType::Newline,
    ensures
        frame_body_spec(toks, p, fields, res) == frame_body_spec(
            toks,
            p + 2,
            fields.push(
                FieldModel {
                    hint: None,
                    typ: toks[p + 1].text,
                    name: toks[p].text,
                    reservations: None,
                },
            ),
            res,
        ),
{
}

/// Law: `const N = V` adds the constant with name `N` and value `V`, and
/// `option N = V` the option with name `N` and hint `V`; reading goes on
/// after `V`.
pub proof fn law_const_and_option(
    toks: Seq<TokenView>,
    p: int,
    ast: AstModel,
    pending: Seq<AttrModel>,
)
    requires
        0 <= p,
        p + 3 < toks.len(),
    ensures
        toks[p].typ == TokenType::Const ==> items_spec(toks, p, ast, pending) == items_spec(
            toks,
            p + 4,
            AstModel {
                consts: ast.consts.push(ConstModel { name: toks[p + 1].text, value: toks[p + 3].text }),
                ..ast
            },
            pending,
        ),
        toks[p].typ == TokenType::Option ==> items_spec(toks, p, ast, pending) == items_spec(
            toks,
            p + 4,
            AstModel {
                options: ast.options.push(HintModel { name: toks[p + 1].text, hint: toks[p + 3].text }),
                ..ast
            },
            pending,
        ),
{
}

/// Law: a message `message NAME ( REQ ) ( RES ) { }` reads its name,
/// request and response at their places and has no block; reading goes on
/// after its `}`.
pub proof fn law_plain_message(toks: Seq<TokenView>, p: int)
    requires
        0 <= p,
        p + 9 < toks.len(),
        toks[p + 9].typ == TokenType::Rbrace,
    ensures
        crate::codec::parser::message_spec(toks, p) == Some(
            (
                crate::codec::parser::MessageModel {
                    name: toks[p + 1].text,
                    req: toks[p + 3].text,
                    res: toks[p + 6].text,
                    body: None,
                },
                p + 10,
            ),
        ),
{
}

} // verus!
