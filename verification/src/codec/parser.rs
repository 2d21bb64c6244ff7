//! The earlier parser of the `.synq` language: package and import names are
//! single tokens, `required` is no field hint, a `reserved` line keeps the
//! tokens after the keyword, and a message reads `name (Req) (Res) { ... }`
//! with an optional block of raw tokens.
pub use crate::synq::ast::{
    AttrModel, Attribute, ConstDecl, ConstModel, EnumDecl, EnumModel, FieldDecl, FieldModel,
    FrameDecl, FrameModel, Hint, HintModel, ReservedFieldDecl, ReservedModel,
};
use crate::error::{ParseError, ParseErrorView};
use crate::synq::ast::lemma_push_deep;
use crate::synq::lexer::{Token, TokenType, TokenView};
use crate::synq::parser::{
    brace_spec, lemma_brace_progress, matches_option, matches_parsed, step, tok_at, typ_at,
    Parsed,
};
use crate::text::{str_eq, to_string};
use vstd::prelude::*;
use vstd::string::StringExecFns;

verus! {

/// A parsed `.synq` file.
#[derive(Debug)]
pub struct Ast {
    pub package: String,
    pub import: Vec<String>,
    pub options: Vec<Hint>,
    pub consts: Vec<ConstDecl>,
    pub enums: Vec<EnumDecl>,
    pub frames: Vec<FrameDecl>,
    pub synqs: Vec<PhotonDecl>,
}

/// `synq Name { ... }`: a service made of messages.
#[derive(Debug)]
pub struct PhotonDecl {
    pub name: String,
    pub attrs: Vec<Attribute>,
    pub messages: Vec<MessageDecl>,
}

/// `message name (Req) (Res) { ... }`.
#[derive(Debug)]
pub struct MessageDecl {
    pub name: String,
    pub req: String,
    pub res: String,
    pub body: Option<Opt>,
}

/// The block of a message: a name and the texts of the tokens in it.
#[derive(Debug)]
pub struct Opt {
    pub name: String,
    pub body: Vec<String>,
}

pub struct AstModel {
    pub package: Seq<char>,
    pub import: Seq<Seq<char>>,
    pub options: Seq<HintModel>,
    pub consts: Seq<ConstModel>,
    pub enums: Seq<EnumModel>,
    pub frames: Seq<FrameModel>,
    pub synqs: Seq<PhotonModel>,
}

pub struct PhotonModel {
    pub name: Seq<char>,
    pub attrs: Seq<AttrModel>,
    pub messages: Seq<MessageModel>,
}

pub struct MessageModel {
    pub name: Seq<char>,
    pub req: Seq<char>,
    pub res: Seq<char>,
    pub body: Option<OptModel>,
}

pub struct OptModel {
    pub name: Seq<char>,
    pub body: Seq<Seq<char>>,
}

impl DeepView for Ast {
    type V = AstModel;

    open spec fn deep_view(&self) -> AstModel {
        AstModel {
            package: self.package@,
            import: self.import.deep_view(),
            options: self.options.deep_view(),
            consts: self.consts.deep_view(),
            enums: self.enums.deep_view(),
            frames: self.frames.deep_view(),
            synqs: self.synqs.deep_view(),
        }
    }
}

impl DeepView for PhotonDecl {
    type V = PhotonModel;

    open spec fn deep_view(&self) -> PhotonModel {
        PhotonModel {
            name: self.name@,
            attrs: self.attrs.deep_view(),
            messages: self.messages.deep_view(),
        }
    }
}

impl DeepView for MessageDecl {
    type V = MessageModel;

    open spec fn deep_view(&self) -> MessageModel {
        MessageModel {
            name: self.name@,
            req: self.req@,
            res: self.res@,
            body: self.body.deep_view(),
        }
    }
}

impl DeepView for Opt {
    type V = OptModel;

    open spec fn deep_view(&self) -> OptModel {
        OptModel { name: self.name@, body: self.body.deep_view() }
    }
}

/// The hints that may stand before a field.
pub open spec fn is_field_hint(s: Seq<char>) -> bool {
    s == "repeated"@ || s == "optional"@ || s == "oneof"@
}

/// The entries of a `reserved` line, read from the token after the keyword
/// up to a newline or end of file.
pub open spec fn reserved_spec(toks: Seq<TokenView>, p: int, acc: Seq<Seq<char>>) -> Option<
    (Seq<Seq<char>>, int),
>
    decreases toks.len() - p,
{
    if p < 0 || p >= toks.len() {
        None
    } else if toks[p].typ == TokenType::Newline || toks[p].typ == TokenType::Eof {
        Some((acc, p))
    } else {
        reserved_spec(toks, p + 1, acc.push(toks[p].text))
    }
}

pub proof fn lemma_reserved_progress(toks: Seq<TokenView>, p: int, acc: Seq<Seq<char>>)
    requires
        0 <= p,
    ensures
        reserved_spec(toks, p, acc) matches Some((_, q)) ==> p <= q < toks.len(),
    decreases toks.len() - p,
{
    if 0 <= p < toks.len() && !(toks[p].typ == TokenType::Newline || toks[p].typ
        == TokenType::Eof) {
        lemma_reserved_progress(toks, p + 1, acc.push(toks[p].text));
    }
}

/// The body of a frame, from `p` to its closing brace or end of file.
pub open spec fn frame_body_spec(
    toks: Seq<TokenView>,
    p: int,
    fields: Seq<FieldModel>,
    res: Seq<ReservedModel>,
) -> Parsed<(Seq<FieldModel>, Seq<ReservedModel>)>
    decreases toks.len() - p,
{
    if p < 0 || p >= toks.len() {
        Parsed::Panic
    } else {
        let t = toks[p];
        if t.typ == TokenType::Rbrace || t.typ == TokenType::Eof {
            Parsed::Done((fields, res), p)
        } else if t.typ == TokenType::Newline {
            frame_body_spec(toks, p + 1, fields, res)
        } else if t.text == "reserved"@ {
            match reserved_spec(toks, p + 1, Seq::empty()) {
                Some((list, q)) => {
                    proof {
                        lemma_reserved_progress(toks, p + 1, Seq::empty());
                    }
                    frame_body_spec(
                        toks,
                        q,
                        fields,
                        res.push(ReservedModel { reservations: list }),
                    )
                },
                None => Parsed::Panic,
            }
        } else {
            let hint = if is_field_hint(t.text) {
                Some(t.text)
            } else {
                None
            };
            let q0 = if is_field_hint(t.text) {
                p + 1
            } else {
                p
            };
            match tok_at(toks, q0) {
                None => Parsed::Failed(
                    ParseErrorView::Unexpected { typ: "EOF"@, line: t.line, col: t.col },
                ),
                Some(fname) => match tok_at(toks, q0 + 1) {
                    None => Parsed::Failed(
                        ParseErrorView::Unexpected {
                            typ: "EOF"@,
                            line: fname.line,
                            col: fname.col,
                        },
                    ),
                    Some(ftype) => frame_body_spec(
                        toks,
                        q0 + 2,
                        fields.push(
                            FieldModel {
                                hint,
                                typ: ftype.text,
                                name: fname.text,
                                reservations: None,
                            },
                        ),
                        res,
                    ),
                },
            }
        }
    }
}

pub proof fn lemma_frame_body_progress(
    toks: Seq<TokenView>,
    p: int,
    fields: Seq<FieldModel>,
    res: Seq<ReservedModel>,
)
    requires
        0 <= p,
    ensures
        frame_body_spec(toks, p, fields, res) matches Parsed::Done(_, q) ==> p <= q < toks.len(),
    decreases toks.len() - p,
{
    if 0 <= p < toks.len() {
        let t = toks[p];
        if t.typ == TokenType::Rbrace || t.typ == TokenType::Eof {
        } else if t.typ == TokenType::Newline {
            lemma_frame_body_progress(toks, p + 1, fields, res);
        } else if t.text == "reserved"@ {
            lemma_reserved_progress(toks, p + 1, Seq::empty());
            match reserved_spec(toks, p + 1, Seq::empty()) {
                Some((list, q)) => lemma_frame_body_progress(
                    toks,
                    q,
                    fields,
                    res.push(ReservedModel { reservations: list }),
                ),
                None => {},
            }
        } else {
            let hint = if is_field_hint(t.text) {
                Some(t.text)
            } else {
                None
            };
            let q0 = if is_field_hint(t.text) {
                p + 1
            } else {
                p
            };
            match tok_at(toks, q0) {
                None => {},
                Some(fname) => match tok_at(toks, q0 + 1) {
                    None => {},
                    Some(ftype) => lemma_frame_body_progress(
                        toks,
                        q0 + 2,
                        fields.push(
                            FieldModel {
                                hint,
                                typ: ftype.text,
                                name: fname.text,
                                reservations: None,
                            },
                        ),
                        res,
                    ),
                },
            }
        }
    }
}

/// The tokens of a message's block, up to its `}`; an end-of-file token is
/// taken like any other.
pub open spec fn opt_body_spec(toks: Seq<TokenView>, p: int, acc: Seq<Seq<char>>) -> Option<
    (Seq<Seq<char>>, int),
>
    decreases toks.len() - p,
{
    if p < 0 || p >= toks.len() {
        None
    } else if toks[p].typ == TokenType::Rbrace {
        Some((acc, p))
    } else {
        opt_body_spec(toks, p + 1, acc.push(toks[p].text))
    }
}

pub proof fn lemma_opt_body_progress(toks: Seq<TokenView>, p: int, acc: Seq<Seq<char>>)
    requires
        0 <= p,
    ensures
        opt_body_spec(toks, p, acc) matches Some((_, q)) ==> p <= q < toks.len(),
    decreases toks.len() - p,
{
    if 0 <= p < toks.len() && toks[p].typ != TokenType::Rbrace {
        lemma_opt_body_progress(toks, p + 1, acc.push(toks[p].text));
    }
}

/// A message, from its `message` token at `p`: name, request type and
/// response type are taken at fixed offsets (`message name ( Req ) ( Res )
/// {`), then, unless `}` follows, a block `option Name ( ... ) { ... }`
/// whose name and tokens are kept, then the `}`.
pub open spec fn message_spec(toks: Seq<TokenView>, p: int) -> Option<(MessageModel, int)> {
    let q1 = step(toks, p);
    match tok_at(toks, q1) {
        None => None,
        Some(name) => {
            let q3 = step(toks, step(toks, q1));
            match tok_at(toks, q3) {
                None => None,
                Some(req) => {
                    let q6 = step(toks, step(toks, step(toks, q3)));
                    match tok_at(toks, q6) {
                        None => None,
                        Some(res) => {
                            let q8 = step(toks, step(toks, step(toks, q6)));
                            if typ_at(toks, q8) != Some(TokenType::Rbrace) {
                                let r1 = step(toks, q8);
                                match tok_at(toks, r1) {
                                    None => None,
                                    Some(oname) => {
                                        let r4 = step(toks, step(toks, step(toks, r1)));
                                        match opt_body_spec(toks, r4, Seq::empty()) {
                                            None => None,
                                            Some((body, r)) => Some(
                                                (
                                                    MessageModel {
                                                        name: name.text,
                                                        req: req.text,
                                                        res: res.text,
                                                        body: Some(
                                                            OptModel { name: oname.text, body },
                                                        ),
                                                    },
                                                    step(toks, r),
                                                ),
                                            ),
                                        }
                                    },
                                }
                            } else {
                                Some(
                                    (
                                        MessageModel {
                                            name: name.text,
                                            req: req.text,
                                            res: res.text,
                                            body: None,
                                        },
                                        step(toks, q8),
                                    ),
                                )
                            }
                        },
                    }
                },
            }
        },
    }
}

pub proof fn lemma_message_progress(toks: Seq<TokenView>, p: int)
    requires
        0 <= p < toks.len(),
    ensures
        message_spec(toks, p) matches Some((_, q)) ==> p < q <= toks.len(),
{
    let q1 = step(toks, p);
    let q3 = step(toks, step(toks, q1));
    let q6 = step(toks, step(toks, step(toks, q3)));
    let q8 = step(toks, step(toks, step(toks, q6)));
    if typ_at(toks, q8) != Some(TokenType::Rbrace) {
        let r1 = step(toks, q8);
        let r4 = step(toks, step(toks, step(toks, r1)));
        lemma_opt_body_progress(toks, r4, Seq::empty());
    }
}

/// The messages of a photon, up to its `}` or end of file; other tokens are
/// passed over.
pub open spec fn messages_spec(toks: Seq<TokenView>, p: int, acc: Seq<MessageModel>) -> Option<
    (Seq<MessageModel>, int),
>
    decreases toks.len() - p,
{
    if p < 0 || p >= toks.len() {
        None
    } else if toks[p].typ == TokenType::Rbrace || toks[p].typ == TokenType::Eof {
        Some((acc, p))
    } else if toks[p].typ == TokenType::Message {
        match message_spec(toks, p) {
            None => None,
            Some((m, q)) => {
                proof {
                    lemma_message_progress(toks, p);
                }
                messages_spec(toks, q, acc.push(m))
            },
        }
    } else {
        messages_spec(toks, p + 1, acc)
    }
}

pub proof fn lemma_messages_progress(toks: Seq<TokenView>, p: int, acc: Seq<MessageModel>)
    requires
        0 <= p,
    ensures
        messages_spec(toks, p, acc) matches Some((_, q)) ==> p <= q < toks.len(),
    decreases toks.len() - p,
{
    if 0 <= p < toks.len() && !(toks[p].typ == TokenType::Rbrace || toks[p].typ
        == TokenType::Eof) {
        if toks[p].typ == TokenType::Message {
            lemma_message_progress(toks, p);
            match message_spec(toks, p) {
                Some((m, q)) => lemma_messages_progress(toks, q, acc.push(m)),
                None => {},
            }
        } else {
            lemma_messages_progress(toks, p + 1, acc);
        }
    }
}

/// The empty syntax tree.
pub open spec fn empty_ast() -> AstModel {
    AstModel {
        package: Seq::empty(),
        import: Seq::empty(),
        options: Seq::empty(),
        consts: Seq::empty(),
        enums: Seq::empty(),
        frames: Seq::empty(),
        synqs: Seq::empty(),
    }
}

/// The declarations from position `p` on: as in the current parser, but
/// `package` and `import` take one token, and frames and messages are read
/// as this module describes.
pub open spec fn items_spec(
    toks: Seq<TokenView>,
    p: int,
    ast: AstModel,
    pending: Seq<AttrModel>,
) -> Parsed<AstModel>
    decreases toks.len() - p,
{
    if p < 0 || p >= toks.len() {
        Parsed::Done(ast, p)
    } else {
        let t = toks[p];
        if t.typ == TokenType::Eof {
            Parsed::Done(ast, p)
        } else if t.typ == TokenType::Package || t.typ == TokenType::Import {
            match tok_at(toks, p + 1) {
                None => Parsed::Panic,
                Some(n) => if t.typ == TokenType::Package {
                    items_spec(
                        toks,
                        p + 2,
                        AstModel { package: ast.package + n.text, ..ast },
                        pending,
                    )
                } else {
                    items_spec(
                        toks,
                        p + 2,
                        AstModel { import: ast.import.push(n.text), ..ast },
                        pending,
                    )
                },
            }
        } else if t.typ == TokenType::Const || t.typ == TokenType::Option {
            match tok_at(toks, p + 1) {
                None => Parsed::Panic,
                Some(n) => {
                    let p3 = step(toks, p + 2);
                    match tok_at(toks, p3) {
                        None => Parsed::Panic,
                        Some(v) => if t.typ == TokenType::Const {
                            items_spec(
                                toks,
                                p3 + 1,
                                AstModel {
                                    consts: ast.consts.push(
                                        ConstModel { name: n.text, value: v.text },
                                    ),
                                    ..ast
                                },
                                pending,
                            )
                        } else {
                            items_spec(
                                toks,
                                p3 + 1,
                                AstModel {
                                    options: ast.options.push(
                                        HintModel { name: n.text, hint: v.text },
                                    ),
                                    ..ast
                                },
                                pending,
                            )
                        },
                    }
                },
            }
        } else if t.typ == TokenType::Attribute {
            match tok_at(toks, p + 1) {
                None => Parsed::Failed(
                    ParseErrorView::Unexpected { typ: "EOF"@, line: t.line, col: t.col },
                ),
                Some(k) => {
                    let p2 = p + 2;
                    if typ_at(toks, p2) == Some(TokenType::Ident) {
                        items_spec(
                            toks,
                            p2 + 1,
                            ast,
                            pending.push(AttrModel { key: k.text, val: toks[p2].text }),
                        )
                    } else {
                        items_spec(
                            toks,
                            p2,
                            ast,
                            pending.push(AttrModel { key: k.text, val: Seq::empty() }),
                        )
                    }
                },
            }
        } else if t.typ == TokenType::Frame || t.typ == TokenType::Photon {
            match tok_at(toks, p + 1) {
                None => Parsed::Panic,
                Some(n) => match brace_spec(toks, p + 2) {
                    None => Parsed::Panic,
                    Some(q) => {
                        proof {
                            lemma_brace_progress(toks, p + 2);
                        }
                        if t.typ == TokenType::Frame {
                            match frame_body_spec(toks, q + 1, Seq::empty(), Seq::empty()) {
                                Parsed::Done((fields, res), r) => {
                                    proof {
                                        lemma_frame_body_progress(
                                            toks,
                                            q + 1,
                                            Seq::empty(),
                                            Seq::empty(),
                                        );
                                    }
                                    items_spec(
                                        toks,
                                        r,
                                        AstModel {
                                            frames: ast.frames.push(
                                                FrameModel {
                                                    name: n.text,
                                                    attrs: pending,
                                                    fields,
                                                    reservations: res,
                                                },
                                            ),
                                            ..ast
                                        },
                                        Seq::empty(),
                                    )
                                },
                                Parsed::Failed(e) => Parsed::Failed(e),
                                Parsed::Panic => Parsed::Panic,
                            }
                        } else {
                            match messages_spec(toks, q + 1, Seq::empty()) {
                                Some((msgs, r)) => {
                                    proof {
                                        lemma_messages_progress(toks, q + 1, Seq::empty());
                                    }
                                    items_spec(
                                        toks,
                                        r + 1,
                                        AstModel {
                                            synqs: ast.synqs.push(
                                                PhotonModel {
                                                    name: n.text,
                                                    attrs: pending,
                                                    messages: msgs,
                                                },
                                            ),
                                            ..ast
                                        },
                                        Seq::empty(),
                                    )
                                },
                                None => Parsed::Panic,
                            }
                        }
                    },
                },
            }
        } else {
            items_spec(toks, p + 1, ast, pending)
        }
    }
}

/// What parsing a whole token sequence gives.
pub open spec fn parse_spec(toks: Seq<TokenView>) -> Parsed<AstModel> {
    items_spec(toks, 0, empty_ast(), Seq::empty())
}

fn is_field_hint_exec(s: &str) -> (res: bool)
    ensures
        res == is_field_hint(s@),
{
    str_eq(s, "repeated") || str_eq(s, "optional") || str_eq(s, "oneof")
}

/// A cursor over a token sequence.
pub struct Parser<'tokens, 'a> {
    tokens: &'tokens Vec<Token<'a>>,
    pos: usize,
}

impl<'tokens, 'a> Parser<'tokens, 'a> {
    /// The tokens being parsed, as values.
    pub closed spec fn toks(&self) -> Seq<TokenView> {
        self.tokens.deep_view()
    }

    /// The position of the next token to read.
    pub closed spec fn position(&self) -> int {
        self.pos as int
    }

    /// The position stays within the tokens (at most one past the last).
    pub closed spec fn wf(&self) -> bool {
        self.pos <= self.tokens@.len()
    }

    /// A parser at the first token of `tokens`.
    pub fn new(tokens: &'tokens Vec<Token<'a>>) -> (res: Self)
        ensures
            res.wf(),
            res.toks() == tokens.deep_view(),
            res.position() == 0,
    {
        Self { tokens, pos: 0 }
    }

    proof fn lemma_wf(&self)
        requires
            self.wf(),
        ensures
            0 <= self.position() <= self.toks().len(),
            self.toks().len() == self.tokens@.len(),
    {
    }

    /// The token at the cursor, if any.
    fn peek(&self) -> (res: Option<Token<'a>>)
        requires
            self.wf(),
        ensures
            res.deep_view() == tok_at(self.toks(), self.position()),
    {
        if self.pos < self.tokens.len() {
            Some(self.tokens[self.pos])
        } else {
            None
        }
    }

    /// The token at the cursor, if any; the cursor moves past it.
    fn advance(&mut self) -> (res: Option<Token<'a>>)
        requires
            old(self).wf(),
        ensures
            final(self).wf(),
            final(self).toks() == old(self).toks(),
            final(self).position() == step(old(self).toks(), old(self).position()),
            res.deep_view() == tok_at(old(self).toks(), old(self).position()),
    {
        let tok = self.peek();
        if self.pos < self.tokens.len() {
            self.pos = self.pos + 1;
        }
        tok
    }

    /// The kind of the token at the cursor, if any.
    fn peek_type(&self) -> (res: Option<TokenType>)
        requires
            self.wf(),
        ensures
            res == typ_at(self.toks(), self.position()),
    {
        if self.pos < self.tokens.len() {
            Some(self.tokens[self.pos].typ)
        } else {
            None
        }
    }

    /// Whether the token at the cursor is of kind `t`.
    fn at(&self, t: TokenType) -> (res: bool)
        requires
            self.wf(),
        ensures
            res == (typ_at(self.toks(), self.position()) == Some(t)),
    {
        match self.peek_type() {
            Some(u) => u == t,
            None => false,
        }
    }

    fn skip_to_brace(&mut self) -> (res: bool)
        requires
            old(self).wf(),
        ensures
            final(self).wf(),
            final(self).toks() == old(self).toks(),
            res <==> brace_spec(old(self).toks(), old(self).position()) is Some,
            res ==> brace_spec(old(self).toks(), old(self).position()) == Some(
                final(self).position(),
            ),
    {
        let ghost toks = self.toks();
        let ghost target = brace_spec(toks, self.position());
        loop
            invariant
                self.wf(),
                self.toks() == toks,
                toks == old(self).toks(),
                target == brace_spec(old(self).toks(), old(self).position()),
                brace_spec(toks, self.position()) == target,
            decreases toks.len() - self.position(),
        {
            proof {
                self.lemma_wf();
            }
            match self.peek() {
                None => return false,
                Some(t) => {
                    if t.typ == TokenType::Lbrace || t.typ == TokenType::Eof {
                        return true;
                    }
                    self.advance();
                },
            }
        }
    }

    /// The texts of the tokens from the cursor up to a newline or end of
    /// file (`None` where the tokens run out first).
    fn reserved(&mut self) -> (res: Option<Vec<String>>)
        requires
            old(self).wf(),
        ensures
            final(self).wf(),
            final(self).toks() == old(self).toks(),
            matches_option(
                res,
                reserved_spec(old(self).toks(), old(self).position(), Seq::empty()),
                final(self).position(),
            ),
    {
        let ghost toks = self.toks();
        let ghost target = reserved_spec(toks, self.position(), Seq::empty());
        let mut acc: Vec<String> = Vec::new();
        assert(acc.deep_view() =~= Seq::<Seq<char>>::empty());
        loop
            invariant
                self.wf(),
                self.toks() == toks,
                toks == old(self).toks(),
                target == reserved_spec(old(self).toks(), old(self).position(), Seq::empty()),
                reserved_spec(toks, self.position(), acc.deep_view()) == target,
            decreases toks.len() - self.position(),
        {
            proof {
                self.lemma_wf();
            }
            match self.peek() {
                None => return None,
                Some(t) => {
                    if t.typ == TokenType::Newline || t.typ == TokenType::Eof {
                        return Some(acc);
                    }
                    self.advance();
                    let c = to_string(t.lexeme);
                    let ghost old_acc = acc;
                    let ghost cg = c;
                    acc.push(c);
                    proof {
                        lemma_push_deep(old_acc, acc, cg);
                    }
                },
            }
        }
    }

    fn frame_body(&mut self) -> (res: Option<
        Result<(Vec<FieldDecl>, Vec<ReservedFieldDecl>), ParseError>,
    >)
        requires
            old(self).wf(),
        ensures
            final(self).wf(),
            final(self).toks() == old(self).toks(),
            matches_parsed(
                res,
                frame_body_spec(old(self).toks(), old(self).position(), Seq::empty(), Seq::empty()),
                final(self).position(),
            ),
    {
        let ghost toks = self.toks();
        let ghost target = frame_body_spec(toks, self.position(), Seq::empty(), Seq::empty());
        let mut fields: Vec<FieldDecl> = Vec::new();
        let mut reservations: Vec<ReservedFieldDecl> = Vec::new();
        assert(fields.deep_view() =~= Seq::<FieldModel>::empty());
        assert(reservations.deep_view() =~= Seq::<ReservedModel>::empty());
        loop
            invariant
                self.wf(),
                self.toks() == toks,
                toks == old(self).toks(),
                target == frame_body_spec(
                    old(self).toks(),
                    old(self).position(),
                    Seq::empty(),
                    Seq::empty(),
                ),
                frame_body_spec(toks, self.position(), fields.deep_view(), reservations.deep_view())
                    == target,
            decreases toks.len() - self.position(),
        {
            proof {
                self.lemma_wf();
            }
            let t = match self.peek() {
                None => return None,
                Some(t) => t,
            };
            if t.typ == TokenType::Rbrace || t.typ == TokenType::Eof {
                return Some(Ok((fields, reservations)));
            }
            if t.typ == TokenType::Newline {
                self.advance();
                continue;
            }
            if str_eq(t.lexeme, "reserved") {
                self.advance();
                proof {
                    lemma_reserved_progress(toks, self.position(), Seq::empty());
                }
                match self.reserved() {
                    None => return None,
                    Some(list) => {
                        let r = ReservedFieldDecl { reservations: list };
                        let ghost old_r = reservations;
                        let ghost rg = r;
                        reservations.push(r);
                        proof {
                            lemma_push_deep(old_r, reservations, rg);
                        }
                    },
                }
            } else {
                let hint = if is_field_hint_exec(t.lexeme) {
                    self.advance();
                    Some(to_string(t.lexeme))
                } else {
                    None
                };
                let fname = match self.advance() {
                    None => {
                        return Some(
                            Err(
                                ParseError::Unexpected {
                                    typ: to_string("EOF"),
                                    line: t.line,
                                    col: t.col,
                                },
                            ),
                        )
                    },
                    Some(f) => f,
                };
                let ftype = match self.advance() {
                    None => {
                        return Some(
                            Err(
                                ParseError::Unexpected {
                                    typ: to_string("EOF"),
                                    line: fname.line,
                                    col: fname.col,
                                },
                            ),
                        )
                    },
                    Some(f) => f,
                };
                let f = FieldDecl {
                    hint,
                    typ: to_string(ftype.lexeme),
                    name: to_string(fname.lexeme),
                    reservations: None,
                };
                let ghost old_f = fields;
                let ghost fg = f;
                fields.push(f);
                proof {
                    lemma_push_deep(old_f, fields, fg);
                }
            }
        }
    }

    /// The texts of the tokens from the cursor up to a `}` (`None` where
    /// the tokens run out first).
    fn opt_body(&mut self) -> (res: Option<Vec<String>>)
        requires
            old(self).wf(),
        ensures
            final(self).wf(),
            final(self).toks() == old(self).toks(),
            matches_option(
                res,
                opt_body_spec(old(self).toks(), old(self).position(), Seq::empty()),
                final(self).position(),
            ),
    {
        let ghost toks = self.toks();
        let ghost target = opt_body_spec(toks, self.position(), Seq::empty());
        let mut acc: Vec<String> = Vec::new();
        assert(acc.deep_view() =~= Seq::<Seq<char>>::empty());
        loop
            invariant
                self.wf(),
                self.toks() == toks,
                toks == old(self).toks(),
                target == opt_body_spec(old(self).toks(), old(self).position(), Seq::empty()),
                opt_body_spec(toks, self.position(), acc.deep_view()) == target,
            decreases toks.len() - self.position(),
        {
            proof {
                self.lemma_wf();
            }
            match self.peek() {
                None => return None,
                Some(t) => {
                    if t.typ == TokenType::Rbrace {
                        return Some(acc);
                    }
                    self.advance();
                    let c = to_string(t.lexeme);
                    let ghost old_acc = acc;
                    let ghost cg = c;
                    acc.push(c);
                    proof {
                        lemma_push_deep(old_acc, acc, cg);
                    }
                },
            }
        }
    }

    fn message(&mut self) -> (res: Option<MessageDecl>)
        requires
            old(self).wf(),
        ensures
            final(self).wf(),
            final(self).toks() == old(self).toks(),
            matches_option(
                res,
                message_spec(old(self).toks(), old(self).position()),
                final(self).position(),
            ),
    {
        self.advance();
        let name = match self.advance() {
            None => return None,
            Some(t) => to_string(t.lexeme),
        };
        self.advance();
        let req = match self.advance() {
            None => return None,
            Some(t) => to_string(t.lexeme),
        };
        self.advance();
        self.advance();
        let res = match self.advance() {
            None => return None,
            Some(t) => to_string(t.lexeme),
        };
        self.advance();
        self.advance();
        let body = if !self.at(TokenType::Rbrace) {
            self.advance();
            let oname = match self.advance() {
                None => return None,
                Some(t) => to_string(t.lexeme),
            };
            self.advance();
            self.advance();
            match self.opt_body() {
                None => return None,
                Some(b) => Some(Opt { name: oname, body: b }),
            }
        } else {
            None
        };
        self.advance();
        Some(MessageDecl { name, req, res, body })
    }

    fn messages(&mut self) -> (res: Option<Vec<MessageDecl>>)
        requires
            old(self).wf(),
        ensures
            final(self).wf(),
            final(self).toks() == old(self).toks(),
            matches_option(
                res,
                messages_spec(old(self).toks(), old(self).position(), Seq::empty()),
                final(self).position(),
            ),
    {
        let ghost toks = self.toks();
        let ghost target = messages_spec(toks, self.position(), Seq::empty());
        let mut acc: Vec<MessageDecl> = Vec::new();
        assert(acc.deep_view() =~= Seq::<MessageModel>::empty());
        loop
            invariant
                self.wf(),
                self.toks() == toks,
                toks == old(self).toks(),
                target == messages_spec(old(self).toks(), old(self).position(), Seq::empty()),
                messages_spec(toks, self.position(), acc.deep_view()) == target,
            decreases toks.len() - self.position(),
        {
            proof {
                self.lemma_wf();
            }
            match self.peek() {
                None => return None,
                Some(t) => {
                    if t.typ == TokenType::Rbrace || t.typ == TokenType::Eof {
                        return Some(acc);
                    }
                    if t.typ == TokenType::Message {
                        proof {
                            lemma_message_progress(toks, self.position());
                        }
                        match self.message() {
                            None => return None,
                            Some(m) => {
                                let ghost old_acc = acc;
                                let ghost mg = m;
                                acc.push(m);
                                proof {
                                    lemma_push_deep(old_acc, acc, mg);
                                }
                            },
                        }
                    } else {
                        self.advance();
                    }
                },
            }
        }
    }

    /// Parses the tokens from the cursor on, or says that parsing them
    /// would panic or never end (`None`).
    pub fn try_parse(&mut self) -> (res: Option<Result<Ast, ParseError>>)
        requires
            old(self).wf(),
        ensures
            final(self).wf(),
            final(self).toks() == old(self).toks(),
            matches_parsed(
                res,
                items_spec(old(self).toks(), old(self).position(), empty_ast(), Seq::empty()),
                final(self).position(),
            ),
    {
        let ghost toks = self.toks();
        let ghost target = items_spec(toks, self.position(), empty_ast(), Seq::empty());
        let mut ast = Ast {
            package: String::new(),
            import: Vec::new(),
            options: Vec::new(),
            consts: Vec::new(),
            enums: Vec::new(),
            frames: Vec::new(),
            synqs: Vec::new(),
        };
        let mut pending: Vec<Attribute> = Vec::new();
        assert(ast.import.deep_view() =~= Seq::<Seq<char>>::empty());
        assert(ast.options.deep_view() =~= Seq::<HintModel>::empty());
        assert(ast.consts.deep_view() =~= Seq::<ConstModel>::empty());
        assert(ast.enums.deep_view() =~= Seq::<EnumModel>::empty());
        assert(ast.frames.deep_view() =~= Seq::<FrameModel>::empty());
        assert(ast.synqs.deep_view() =~= Seq::<PhotonModel>::empty());
        assert(ast.deep_view() == empty_ast());
        assert(pending.deep_view() =~= Seq::<AttrModel>::empty());
        loop
            invariant
                self.wf(),
                self.toks() == toks,
                toks == old(self).toks(),
                target == items_spec(
                    old(self).toks(),
                    old(self).position(),
                    empty_ast(),
                    Seq::empty(),
                ),
                items_spec(toks, self.position(), ast.deep_view(), pending.deep_view()) == target,
            decreases toks.len() - self.position(),
        {
            proof {
                self.lemma_wf();
            }
            let tok = match self.peek() {
                None => return Some(Ok(ast)),
                Some(t) => t,
            };
            let ghost p = self.position();
            if tok.typ == TokenType::Eof {
                return Some(Ok(ast));
            }
            if tok.typ == TokenType::Package || tok.typ == TokenType::Import {
                self.advance();
                let name = match self.advance() {
                    None => return None,
                    Some(n) => to_string(n.lexeme),
                };
                if tok.typ == TokenType::Package {
                    ast.package.append(name.as_str());
                } else {
                    let ghost old_v = ast.import;
                    let ghost ng = name;
                    ast.import.push(name);
                    proof {
                        lemma_push_deep(old_v, ast.import, ng);
                    }
                }
            } else if tok.typ == TokenType::Const || tok.typ == TokenType::Option {
                self.advance();
                let name = match self.advance() {
                    None => return None,
                    Some(n) => to_string(n.lexeme),
                };
                self.advance();
                let value = match self.advance() {
                    None => return None,
                    Some(n) => to_string(n.lexeme),
                };
                if tok.typ == TokenType::Const {
                    let c = ConstDecl { name, value };
                    let ghost old_v = ast.consts;
                    let ghost cg = c;
                    ast.consts.push(c);
                    proof {
                        lemma_push_deep(old_v, ast.consts, cg);
                    }
                } else {
                    let h = Hint { name, hint: value };
                    let ghost old_v = ast.options;
                    let ghost hg = h;
                    ast.options.push(h);
                    proof {
                        lemma_push_deep(old_v, ast.options, hg);
                    }
                }
            } else if tok.typ == TokenType::Attribute {
                self.advance();
                let key = match self.advance() {
                    None => {
                        return Some(
                            Err(
                                ParseError::Unexpected {
                                    typ: to_string("EOF"),
                                    line: tok.line,
                                    col: tok.col,
                                },
                            ),
                        )
                    },
                    Some(k) => k,
                };
                let val = if self.at(TokenType::Ident) {
                    match self.advance() {
                        Some(v) => to_string(v.lexeme),
                        None => String::new(),
                    }
                } else {
                    String::new()
                };
                let a = Attribute { key: to_string(key.lexeme), val };
                let ghost old_v = pending;
                let ghost ag = a;
                pending.push(a);
                proof {
                    lemma_push_deep(old_v, pending, ag);
                }
            } else if tok.typ == TokenType::Frame || tok.typ == TokenType::Photon {
                self.advance();
                let name = match self.advance() {
                    None => return None,
                    Some(n) => to_string(n.lexeme),
                };
                proof {
                    lemma_brace_progress(toks, p + 2);
                }
                if !self.skip_to_brace() {
                    return None;
                }
                self.advance();
                if tok.typ == TokenType::Frame {
                    let ghost q = self.position();
                    proof {
                        lemma_frame_body_progress(toks, q, Seq::empty(), Seq::empty());
                    }
                    match self.frame_body() {
                        None => return None,
                        Some(Err(e)) => return Some(Err(e)),
                        Some(Ok((fields, reservations))) => {
                            let attrs = pending;
                            pending = Vec::new();
                            assert(pending.deep_view() =~= Seq::<AttrModel>::empty());
                            let f = FrameDecl { name, attrs, fields, reservations };
                            let ghost old_v = ast.frames;
                            let ghost fg = f;
                            ast.frames.push(f);
                            proof {
                                lemma_push_deep(old_v, ast.frames, fg);
                            }
                        },
                    }
                } else {
                    let ghost q = self.position();
                    proof {
                        lemma_messages_progress(toks, q, Seq::empty());
                    }
                    match self.messages() {
                        None => return None,
                        Some(messages) => {
                            self.advance();
                            let attrs = pending;
                            pending = Vec::new();
                            assert(pending.deep_view() =~= Seq::<AttrModel>::empty());
                            let ph = PhotonDecl { name, attrs, messages };
                            let ghost old_v = ast.synqs;
                            let ghost pg = ph;
                            ast.synqs.push(ph);
                            proof {
                                lemma_push_deep(old_v, ast.synqs, pg);
                            }
                        },
                    }
                }
            } else {
                self.advance();
            }
        }
    }

    /// Parses the tokens from the cursor on into a syntax tree, as
    /// [`items_spec`] describes.
    pub fn parse(&mut self) -> (res: Result<Ast, ParseError>)
        requires
            old(self).wf(),
            !(items_spec(old(self).toks(), old(self).position(), empty_ast(), Seq::empty()) is Panic),
        ensures
            final(self).wf(),
            final(self).toks() == old(self).toks(),
            matches_parsed(
                Some(res),
                items_spec(old(self).toks(), old(self).position(), empty_ast(), Seq::empty()),
                final(self).position(),
            ),
    {
        match self.try_parse() {
            Some(r) => r,
            None => Err(ParseError::Unexpected { typ: String::new(), line: 0, col: 0 }),
        }
    }
} // impl

} // verus!
