//! The syntax tree that the parser builds, and its mathematical model.
use vstd::prelude::*;

verus! {

/// A parsed `.synq` file.
#[derive(Debug)]
pub struct Ast {
    pub package: String,
    pub import: Vec<String>,
    pub options: Vec<Hint>,
    pub consts: Vec<ConstDecl>,
    pub enums: Vec<EnumDecl>,
    pub frames: Vec<FrameDecl>,
    pub synqs: Vec<PhotonDecl>,
}

/// `@key value` before a frame or a photon.
#[derive(Debug)]
pub struct Attribute {
    pub key: String,
    pub val: String,
}

/// `const name = value`.
#[derive(Debug)]
pub struct ConstDecl {
    pub name: String,
    pub value: String,
}

/// `option name = hint`.
#[derive(Debug)]
pub struct Hint {
    pub name: String,
    pub hint: String,
}

/// An enumeration (the parser reads none yet).
#[derive(Debug)]
pub struct EnumDecl {
    pub name: String,
    pub consts: Vec<ConstDecl>,
}

/// `frame Name { ... }`: a record of fields.
#[derive(Debug)]
pub struct FrameDecl {
    pub name: String,
    pub attrs: Vec<Attribute>,
    pub fields: Vec<FieldDecl>,
    pub reservations: Vec<ReservedFieldDecl>,
}

/// One field of a frame: an optional hint, a name and a type.
#[derive(Debug)]
pub struct FieldDecl {
    pub hint: Option<String>,
    pub typ: String,
    pub name: String,
    pub reservations: Option<ReservedFieldDecl>,
}

/// A `reserved` line of a frame.
#[derive(Debug)]
pub struct ReservedFieldDecl {
    pub reservations: Vec<String>,
}

/// `synq Name { ... }`: a service made of messages.
#[derive(Debug)]
pub struct PhotonDecl {
    pub name: String,
    pub attrs: Vec<Attribute>,
    pub messages: Vec<MessageDecl>,
}

/// `message name(Req) returns (Res) { ... }`.
#[derive(Debug)]
pub struct MessageDecl {
    pub name: String,
    pub req: String,
    pub res: String,
    pub body: Option<Opt>,
}

/// The `option (...) { ... }` block of a message.
#[derive(Debug)]
pub struct Opt {
    pub name: String,
    pub body: BodyOpt,
}

/// What an option block holds: its name, `use` lines and calls.
#[derive(Debug)]
pub struct BodyOpt {
    pub name: String,
    pub namespaces: Option<Vec<String>>,
    pub calls: Vec<Call>,
}

/// One line of an option block: `f(a, b)` or `f a b`, maybe with a hint.
#[derive(Debug)]
pub struct Call {
    pub hint: Option<String>,
    pub fun_name: String,
    pub fun_params: Vec<String>,
    pub is_call: bool,
}

pub struct AstModel {
    pub package: Seq<char>,
    pub import: Seq<Seq<char>>,
    pub options: Seq<HintModel>,
    pub consts: Seq<ConstModel>,
    pub enums: Seq<EnumModel>,
    pub frames: Seq<FrameModel>,
    pub synqs: Seq<PhotonModel>,
}

pub struct AttrModel {
    pub key: Seq<char>,
    pub val: Seq<char>,
}

pub struct ConstModel {
    pub name: Seq<char>,
    pub value: Seq<char>,
}

pub struct HintModel {
    pub name: Seq<char>,
    pub hint: Seq<char>,
}

pub struct EnumModel {
    pub name: Seq<char>,
    pub consts: Seq<ConstModel>,
}

pub struct FrameModel {
    pub name: Seq<char>,
    pub attrs: Seq<AttrModel>,
    pub fields: Seq<FieldModel>,
    pub reservations: Seq<ReservedModel>,
}

pub struct FieldModel {
    pub hint: Option<Seq<char>>,
    pub typ: Seq<char>,
    pub name: Seq<char>,
    pub reservations: Option<ReservedModel>,
}

pub struct ReservedModel {
    pub reservations: Seq<Seq<char>>,
}

pub struct PhotonModel {
    pub name: Seq<char>,
    pub attrs: Seq<AttrModel>,
    pub messages: Seq<MessageModel>,
}

pub struct MessageModel {
    pub name: Seq<char>,
    pub req: Seq<char>,
    pub res: Seq<char>,
    pub body: Option<OptModel>,
}

pub struct OptModel {
    pub name: Seq<char>,
    pub body: BodyOptModel,
}

pub struct BodyOptModel {
    pub name: Seq<char>,
    pub namespaces: Option<Seq<Seq<char>>>,
    pub calls: Seq<CallModel>,
}

pub struct CallModel {
    pub hint: Option<Seq<char>>,
    pub fun_name: Seq<char>,
    pub fun_params: Seq<Seq<char>>,
    pub is_call: bool,
}

impl DeepView for Ast {
    type V = AstModel;

    open spec fn deep_view(&self) -> AstModel {
        AstModel {
            package: self.package@,
            import: self.import.deep_view(),
            options: self.options.deep_view(),
            consts: self.consts.deep_view(),
            enums: self.enums.deep_view(),
            frames: self.frames.deep_view(),
            synqs: self.synqs.deep_view(),
        }
    }
}

impl DeepView for Attribute {
    type V = AttrModel;

    open spec fn deep_view(&self) -> AttrModel {
        AttrModel { key: self.key@, val: self.val@ }
    }
}

impl DeepView for ConstDecl {
    type V = ConstModel;

    open spec fn deep_view(&self) -> ConstModel {
        ConstModel { name: self.name@, value: self.value@ }
    }
}

impl DeepView for Hint {
    type V = HintModel;

    open spec fn deep_view(&self) -> HintModel {
        HintModel { name: self.name@, hint: self.hint@ }
    }
}

impl DeepView for EnumDecl {
    type V = EnumModel;

    open spec fn deep_view(&self) -> EnumModel {
        EnumModel { name: self.name@, consts: self.consts.deep_view() }
    }
}

impl DeepView for FrameDecl {
    type V = FrameModel;

    open spec fn deep_view(&self) -> FrameModel {
        FrameModel {
            name: self.name@,
            attrs: self.attrs.deep_view(),
            fields: self.fields.deep_view(),
            reservations: self.reservations.deep_view(),
        }
    }
}

impl DeepView for FieldDecl {
    type V = FieldModel;

    open spec fn deep_view(&self) -> FieldModel {
        FieldModel {
            hint: self.hint.deep_view(),
            typ: self.typ@,
            name: self.name@,
            reservations: self.reservations.deep_view(),
        }
    }
}

impl DeepView for ReservedFieldDecl {
    type V = ReservedModel;

    open spec fn deep_view(&self) -> ReservedModel {
        ReservedModel { reservations: self.reservations.deep_view() }
    }
}

impl DeepView for PhotonDecl {
    type V = PhotonModel;

    open spec fn deep_view(&self) -> PhotonModel {
        PhotonModel {
            name: self.name@,
            attrs: self.attrs.deep_view(),
            messages: self.messages.deep_view(),
        }
    }
}

impl DeepView for MessageDecl {
    type V = MessageModel;

    open spec fn deep_view(&self) -> MessageModel {
        MessageModel {
            name: self.name@,
            req: self.req@,
            res: self.res@,
            body: self.body.deep_view(),
        }
    }
}

impl DeepView for Opt {
    type V = OptModel;

    open spec fn deep_view(&self) -> OptModel {
        OptModel { name: self.name@, body: self.body.deep_view() }
    }
}

impl DeepView for BodyOpt {
    type V = BodyOptModel;

    open spec fn deep_view(&self) -> BodyOptModel {
        BodyOptModel {
            name: self.name@,
            namespaces: self.namespaces.deep_view(),
            calls: self.calls.deep_view(),
        }
    }
}

impl DeepView for Call {
    type V = CallModel;

    open spec fn deep_view(&self) -> CallModel {
        CallModel {
            hint: self.hint.deep_view(),
            fun_name: self.fun_name@,
            fun_params: self.fun_params.deep_view(),
            is_call: self.is_call,
        }
    }
}

/// Pushing onto a vector pushes the element's model onto its model.
pub proof fn lemma_push_deep<T: DeepView>(old_v: Vec<T>, new_v: Vec<T>, x: T)
    requires
        new_v@ == old_v@.push(x),
    ensures
        new_v.deep_view() == old_v.deep_view().push(x.deep_view()),
{
    assert(new_v.deep_view() =~= old_v.deep_view().push(x.deep_view()));
}

} // verus!
