//! Text renderings of a syntax tree: a Mermaid diagram and a plain outline.
//!
//! Each rendering is specified as text appended, piece by piece, after the
//! text already written (`acc`).
use crate::synq::ast::{
    AttrModel, Attribute, Ast, AstModel, Call, CallModel, ConstDecl, ConstModel, EnumDecl,
    EnumModel, FieldDecl, FieldModel, FrameDecl, FrameModel, Hint, HintModel, MessageDecl,
    MessageModel, OptModel, PhotonDecl, PhotonModel, ReservedFieldDecl, ReservedModel,
};
use vstd::prelude::*;
use vstd::string::StringExecFns;

verus! {

/// Renders a syntax tree as text.
pub struct AstPrinter;

/// `acc`, then `h ` for a hint `h` (nothing without one).
pub open spec fn with_hint(acc: Seq<char>, h: Option<Seq<char>>) -> Seq<char> {
    match h {
        Some(h) => acc + h + " "@,
        None => acc,
    }
}

pub open spec fn mm_const(acc: Seq<char>, c: ConstModel) -> Seq<char> {
    acc + "  Consts --> C_"@ + c.name + "["@ + c.name + ": "@ + c.value + "]\n"@
}

pub open spec fn mm_consts(acc: Seq<char>, cs: Seq<ConstModel>) -> Seq<char>
    decreases cs.len(),
{
    if cs.len() == 0 {
        acc
    } else {
        mm_const(mm_consts(acc, cs.drop_last()), cs.last())
    }
}

pub open spec fn mm_enum_const(acc: Seq<char>, e: Seq<char>, c: ConstModel) -> Seq<char> {
    acc + "  E_"@ + e + " --> EC_"@ + e + "_"@ + c.name + "["@ + c.name + ": "@ + c.value
        + "]\n"@
}

pub open spec fn mm_enum_consts(acc: Seq<char>, e: Seq<char>, cs: Seq<ConstModel>) -> Seq<char>
    decreases cs.len(),
{
    if cs.len() == 0 {
        acc
    } else {
        mm_enum_const(mm_enum_consts(acc, e, cs.drop_last()), e, cs.last())
    }
}

pub open spec fn mm_enum(acc: Seq<char>, e: EnumModel) -> Seq<char> {
    mm_enum_consts(acc + "  Enums --> E_"@ + e.name + "[Enum: "@ + e.name + "]\n"@, e.name, e.consts)
}

pub open spec fn mm_enums(acc: Seq<char>, es: Seq<EnumModel>) -> Seq<char>
    decreases es.len(),
{
    if es.len() == 0 {
        acc
    } else {
        mm_enum(mm_enums(acc, es.drop_last()), es.last())
    }
}

pub open spec fn mm_field(acc: Seq<char>, f: Seq<char>, fd: FieldModel) -> Seq<char> {
    with_hint(acc + "  F_"@ + f + " --> FF_"@ + f + "_"@ + fd.name + "[\""@, fd.hint) + fd.name
        + ": "@ + fd.typ + "\"]\n"@
}

pub open spec fn mm_fields(acc: Seq<char>, f: Seq<char>, fds: Seq<FieldModel>) -> Seq<char>
    decreases fds.len(),
{
    if fds.len() == 0 {
        acc
    } else {
        mm_field(mm_fields(acc, f, fds.drop_last()), f, fds.last())
    }
}

pub open spec fn mm_frame(acc: Seq<char>, f: FrameModel) -> Seq<char> {
    mm_fields(acc + "  Frames --> F_"@ + f.name + "[Frame: "@ + f.name + "]\n"@, f.name, f.fields)
}

pub open spec fn mm_frames(acc: Seq<char>, fs: Seq<FrameModel>) -> Seq<char>
    decreases fs.len(),
{
    if fs.len() == 0 {
        acc
    } else {
        mm_frame(mm_frames(acc, fs.drop_last()), fs.last())
    }
}

/// The three lines of a message `name` of photon `p`: the message node,
/// then its request and its response.
pub open spec fn mm_message_lines(
    acc: Seq<char>,
    p: Seq<char>,
    name: Seq<char>,
    req: Seq<char>,
    res: Seq<char>,
) -> Seq<char> {
    acc + "  P_"@ + p + " --> PM_"@ + p + "_"@ + name + "[Message: "@ + name + "]\n"@ + "  PM_"@
        + p + "_"@ + name + " --> PMR_"@ + p + "_"@ + name + "_Q[Req: "@ + req + "]\n"@
        + "  PM_"@ + p + "_"@ + name + " --> PMR_"@ + p + "_"@ + name + "_S[Res: "@ + res
        + "]\n"@
}

pub open spec fn mm_message(acc: Seq<char>, p: Seq<char>, m: MessageModel) -> Seq<char> {
    mm_message_lines(acc, p, m.name, m.req, m.res)
}

pub open spec fn mm_messages(acc: Seq<char>, p: Seq<char>, ms: Seq<MessageModel>) -> Seq<char>
    decreases ms.len(),
{
    if ms.len() == 0 {
        acc
    } else {
        mm_message(mm_messages(acc, p, ms.drop_last()), p, ms.last())
    }
}

pub open spec fn mm_photon(acc: Seq<char>, p: PhotonModel) -> Seq<char> {
    mm_messages(
        acc + "  Photons --> P_"@ + p.name + "[Photon: "@ + p.name + "]\n"@,
        p.name,
        p.messages,
    )
}

pub open spec fn mm_photons(acc: Seq<char>, ps: Seq<PhotonModel>) -> Seq<char>
    decreases ps.len(),
{
    if ps.len() == 0 {
        acc
    } else {
        mm_photon(mm_photons(acc, ps.drop_last()), ps.last())
    }
}

/// The head of the diagram and its branches for the constants, enums and
/// frames that there are (in this order).
pub open spec fn mermaid_through_frames(
    package: Seq<char>,
    consts: Seq<ConstModel>,
    enums: Seq<EnumModel>,
    frames: Seq<FrameModel>,
) -> Seq<char> {
    let head = "graph TD\n"@ + "  Root[Package: "@ + package + "]\n"@;
    let a = if consts.len() > 0 {
        mm_consts(head + "  Root --> Consts[Constants]\n"@, consts)
    } else {
        head
    };
    let b = if enums.len() > 0 {
        mm_enums(a + "  Root --> Enums[Enums]\n"@, enums)
    } else {
        a
    };
    if frames.len() > 0 {
        mm_frames(b + "  Root --> Frames[Frames]\n"@, frames)
    } else {
        b
    }
}

/// The Mermaid flowchart of a syntax tree: `graph TD`, a root node for the
/// package, then, for each of the constants, enums, frames and photons
/// that there are (in this order), a branch from the root with a node per
/// item and per member.
pub open spec fn mermaid(ast: AstModel) -> Seq<char> {
    let c = mermaid_through_frames(ast.package, ast.consts, ast.enums, ast.frames);
    if ast.synqs.len() > 0 {
        mm_photons(c + "  Root --> Photons[Photons]\n"@, ast.synqs)
    } else {
        c
    }
}

fn push_hint(out: &mut String, h: &Option<String>)
    ensures
        final(out)@ == with_hint(old(out)@, h.deep_view()),
{
    match h {
        Some(h) => {
            out.append(h.as_str());
            out.append(" ");
        },
        None => {},
    }
}

fn push_mm_const(mm: &mut String, c: &ConstDecl)
    ensures
        final(mm)@ == mm_const(old(mm)@, c.deep_view()),
{
    mm.append("  Consts --> C_");
    mm.append(c.name.as_str());
    mm.append("[");
    mm.append(c.name.as_str());
    mm.append(": ");
    mm.append(c.value.as_str());
    mm.append("]\n");
}

fn push_mm_enum_const(mm: &mut String, e: &String, c: &ConstDecl)
    ensures
        final(mm)@ == mm_enum_const(old(mm)@, e@, c.deep_view()),
{
    mm.append("  E_");
    mm.append(e.as_str());
    mm.append(" --> EC_");
    mm.append(e.as_str());
    mm.append("_");
    mm.append(c.name.as_str());
    mm.append("[");
    mm.append(c.name.as_str());
    mm.append(": ");
    mm.append(c.value.as_str());
    mm.append("]\n");
}

fn push_mm_field(mm: &mut String, f: &String, fd: &FieldDecl)
    ensures
        final(mm)@ == mm_field(old(mm)@, f@, fd.deep_view()),
{
    mm.append("  F_");
    mm.append(f.as_str());
    mm.append(" --> FF_");
    mm.append(f.as_str());
    mm.append("_");
    mm.append(fd.name.as_str());
    mm.append("[\"");
    push_hint(mm, &fd.hint);
    mm.append(fd.name.as_str());
    mm.append(": ");
    mm.append(fd.typ.as_str());
    mm.append("\"]\n");
}

/// Appends the lines of a message `name` of photon `p`.
pub(crate) fn push_mm_message(mm: &mut String, p: &String, name: &String, req: &String, res: &String)
    ensures
        final(mm)@ == mm_message_lines(old(mm)@, p@, name@, req@, res@),
{
    mm.append("  P_");
    mm.append(p.as_str());
    mm.append(" --> PM_");
    mm.append(p.as_str());
    mm.append("_");
    mm.append(name.as_str());
    mm.append("[Message: ");
    mm.append(name.as_str());
    mm.append("]\n");
    mm.append("  PM_");
    mm.append(p.as_str());
    mm.append("_");
    mm.append(name.as_str());
    mm.append(" --> PMR_");
    mm.append(p.as_str());
    mm.append("_");
    mm.append(name.as_str());
    mm.append("_Q[Req: ");
    mm.append(req.as_str());
    mm.append("]\n");
    mm.append("  PM_");
    mm.append(p.as_str());
    mm.append("_");
    mm.append(name.as_str());
    mm.append(" --> PMR_");
    mm.append(p.as_str());
    mm.append("_");
    mm.append(name.as_str());
    mm.append("_S[Res: ");
    mm.append(res.as_str());
    mm.append("]\n");
}

/// The head of the diagram and its branches for `consts`, `enums` and
/// `frames` (see [`mermaid_through_frames`]).
pub(crate) fn mermaid_head(
    package: &String,
    consts: &Vec<ConstDecl>,
    enums: &Vec<EnumDecl>,
    frames: &Vec<FrameDecl>,
) -> (res: String)
    ensures
        res@ == mermaid_through_frames(
            package@,
            consts.deep_view(),
            enums.deep_view(),
            frames.deep_view(),
        ),
{
    let ghost mc = consts.deep_view();
    let ghost me = enums.deep_view();
    let ghost mf = frames.deep_view();
    let mut mm = String::new();
    mm.append("graph TD\n");
    mm.append("  Root[Package: ");
    mm.append(package.as_str());
    mm.append("]\n");
    assert(mm@ =~= "graph TD\n"@ + "  Root[Package: "@ + package@ + "]\n"@);
    if consts.len() > 0 {
        mm.append("  Root --> Consts[Constants]\n");
        let ghost base = mm@;
        let mut i: usize = 0;
        while i < consts.len()
            invariant
                mc == consts.deep_view(),
                i <= consts@.len(),
                mc.len() == consts@.len(),
                mm@ == mm_consts(base, mc.take(i as int)),
            decreases consts@.len() - i,
        {
            assert(consts[i as int].deep_view() == mc[i as int]);
            push_mm_const(&mut mm, &consts[i]);
            assert(mc.take(i + 1).drop_last() =~= mc.take(i as int));
            i = i + 1;
        }
        assert(mc.take(i as int) =~= mc);
    }
    if enums.len() > 0 {
        mm.append("  Root --> Enums[Enums]\n");
        let ghost base = mm@;
        let mut i: usize = 0;
        while i < enums.len()
            invariant
                me == enums.deep_view(),
                i <= enums@.len(),
                me.len() == enums@.len(),
                mm@ == mm_enums(base, me.take(i as int)),
            decreases enums@.len() - i,
        {
            let e = &enums[i];
            let ghost em = me[i as int];
            assert(e.deep_view() == em);
            mm.append("  Enums --> E_");
            mm.append(e.name.as_str());
            mm.append("[Enum: ");
            mm.append(e.name.as_str());
            mm.append("]\n");
            let ghost inner = mm@;
            let mut j: usize = 0;
            while j < e.consts.len()
                invariant
                    em == e.deep_view(),
                    j <= e.consts@.len(),
                    em.consts.len() == e.consts@.len(),
                    mm@ == mm_enum_consts(inner, em.name, em.consts.take(j as int)),
                decreases e.consts@.len() - j,
            {
                assert(e.consts[j as int].deep_view() == em.consts[j as int]);
                push_mm_enum_const(&mut mm, &e.name, &e.consts[j]);
                assert(em.consts.take(j + 1).drop_last() =~= em.consts.take(j as int));
                j = j + 1;
            }
            assert(em.consts.take(j as int) =~= em.consts);
            assert(me.take(i + 1).drop_last() =~= me.take(i as int));
            i = i + 1;
        }
        assert(me.take(i as int) =~= me);
    }
    if frames.len() > 0 {
        mm.append("  Root --> Frames[Frames]\n");
        let ghost base = mm@;
        let mut i: usize = 0;
        while i < frames.len()
            invariant
                mf == frames.deep_view(),
                i <= frames@.len(),
                mf.len() == frames@.len(),
                mm@ == mm_frames(base, mf.take(i as int)),
            decreases frames@.len() - i,
        {
            let f = &frames[i];
            let ghost fm = mf[i as int];
            assert(f.deep_view() == fm);
            mm.append("  Frames --> F_");
            mm.append(f.name.as_str());
            mm.append("[Frame: ");
            mm.append(f.name.as_str());
            mm.append("]\n");
            let ghost inner = mm@;
            let mut j: usize = 0;
            while j < f.fields.len()
                invariant
                    fm == f.deep_view(),
                    j <= f.fields@.len(),
                    fm.fields.len() == f.fields@.len(),
                    mm@ == mm_fields(inner, fm.name, fm.fields.take(j as int)),
                decreases f.fields@.len() - j,
            {
                assert(f.fields[j as int].deep_view() == fm.fields[j as int]);
                push_mm_field(&mut mm, &f.name, &f.fields[j]);
                assert(fm.fields.take(j + 1).drop_last() =~= fm.fields.take(j as int));
                j = j + 1;
            }
            assert(fm.fields.take(j as int) =~= fm.fields);
            assert(mf.take(i + 1).drop_last() =~= mf.take(i as int));
            i = i + 1;
        }
        assert(mf.take(i as int) =~= mf);
    }
    mm
}

impl AstPrinter {
    /// The Mermaid flowchart of `ast` (see [`mermaid`]).
    pub fn to_mermaid(ast: &Ast) -> (res: String)
        ensures
            res@ == mermaid(ast.deep_view()),
    {
        let ghost m = ast.deep_view();
        let mut mm = mermaid_head(&ast.package, &ast.consts, &ast.enums, &ast.frames);
        if ast.synqs.len() > 0 {
            mm.append("  Root --> Photons[Photons]\n");
            let ghost base = mm@;
            let mut i: usize = 0;
            while i < ast.synqs.len()
                invariant
                    m == ast.deep_view(),
                    i <= ast.synqs@.len(),
                    m.synqs.len() == ast.synqs@.len(),
                    mm@ == mm_photons(base, m.synqs.take(i as int)),
                decreases ast.synqs@.len() - i,
            {
                let p = &ast.synqs[i];
                let ghost pm = m.synqs[i as int];
                assert(p.deep_view() == pm);
                mm.append("  Photons --> P_");
                mm.append(p.name.as_str());
                mm.append("[Photon: ");
                mm.append(p.name.as_str());
                mm.append("]\n");
                let ghost inner = mm@;
                let mut j: usize = 0;
                while j < p.messages.len()
                    invariant
                        pm == p.deep_view(),
                        j <= p.messages@.len(),
                        pm.messages.len() == p.messages@.len(),
                        mm@ == mm_messages(inner, pm.name, pm.messages.take(j as int)),
                    decreases p.messages@.len() - j,
                {
                    assert(p.messages[j as int].deep_view() == pm.messages[j as int]);
                    let msg = &p.messages[j];
                    push_mm_message(&mut mm, &p.name, &msg.name, &msg.req, &msg.res);
                    assert(pm.messages.take(j + 1).drop_last() =~= pm.messages.take(j as int));
                    j = j + 1;
                }
                assert(pm.messages.take(j as int) =~= pm.messages);
                assert(m.synqs.take(i + 1).drop_last() =~= m.synqs.take(i as int));
                i = i + 1;
            }
            assert(m.synqs.take(i as int) =~= m.synqs);
        }
        mm
    }
}

/// `acc`, then the items joined by `sep`.
pub open spec fn join_onto(acc: Seq<char>, sep: Seq<char>, xs: Seq<Seq<char>>) -> Seq<char>
    decreases xs.len(),
{
    if xs.len() == 0 {
        acc
    } else if xs.len() == 1 {
        acc + xs[0]
    } else {
        join_onto(acc, sep, xs.drop_last()) + sep + xs.last()
    }
}

/// Appends the items of `xs` joined by `sep`.
pub fn push_join(out: &mut String, sep: &str, xs: &Vec<String>)
    ensures
        final(out)@ == join_onto(old(out)@, sep@, xs.deep_view()),
{
    let ghost v = xs.deep_view();
    let mut i: usize = 0;
    while i < xs.len()
        invariant
            v == xs.deep_view(),
            i <= xs@.len(),
            v.len() == xs@.len(),
            out@ == join_onto(old(out)@, sep@, v.take(i as int)),
        decreases xs@.len() - i,
    {
        if i > 0 {
            out.append(sep);
        }
        out.append(xs[i].as_str());
        assert(v.take(i + 1).drop_last() =~= v.take(i as int));
        i = i + 1;
    }
    assert(v.take(i as int) =~= v);
}

/// `acc`, then a line `  - x` for each import `x`.
pub open spec fn pr_imports(acc: Seq<char>, xs: Seq<Seq<char>>) -> Seq<char>
    decreases xs.len(),
{
    if xs.len() == 0 {
        acc
    } else {
        pr_imports(acc, xs.drop_last()) + "  - "@ + xs.last() + "\n"@
    }
}

pub open spec fn pr_options(acc: Seq<char>, xs: Seq<HintModel>) -> Seq<char>
    decreases xs.len(),
{
    if xs.len() == 0 {
        acc
    } else {
        pr_options(acc, xs.drop_last()) + "  "@ + xs.last().name + " = "@ + xs.last().hint + "\n"@
    }
}

pub open spec fn pr_consts(acc: Seq<char>, xs: Seq<ConstModel>) -> Seq<char>
    decreases xs.len(),
{
    if xs.len() == 0 {
        acc
    } else {
        pr_consts(acc, xs.drop_last()) + "  const "@ + xs.last().name + " = "@ + xs.last().value
            + "\n"@
    }
}

pub open spec fn pr_enum_consts(acc: Seq<char>, xs: Seq<ConstModel>) -> Seq<char>
    decreases xs.len(),
{
    if xs.len() == 0 {
        acc
    } else {
        pr_enum_consts(acc, xs.drop_last()) + "    "@ + xs.last().name + " = "@ + xs.last().value
            + "\n"@
    }
}

pub open spec fn pr_enum(acc: Seq<char>, e: EnumModel) -> Seq<char> {
    pr_enum_consts(acc + "  enum "@ + e.name + " {\n"@, e.consts) + "  }\n"@
}

pub open spec fn pr_enums(acc: Seq<char>, xs: Seq<EnumModel>) -> Seq<char>
    decreases xs.len(),
{
    if xs.len() == 0 {
        acc
    } else {
        pr_enum(pr_enums(acc, xs.drop_last()), xs.last())
    }
}

pub open spec fn pr_attrs(acc: Seq<char>, xs: Seq<AttrModel>) -> Seq<char>
    decreases xs.len(),
{
    if xs.len() == 0 {
        acc
    } else {
        pr_attrs(acc, xs.drop_last()) + "    @"@ + xs.last().key + "("@ + xs.last().val + ")\n"@
    }
}

pub open spec fn pr_fields(acc: Seq<char>, xs: Seq<FieldModel>) -> Seq<char>
    decreases xs.len(),
{
    if xs.len() == 0 {
        acc
    } else {
        with_hint(pr_fields(acc, xs.drop_last()) + "    "@, xs.last().hint) + xs.last().name + " "@
            + xs.last().typ + "\n"@
    }
}

pub open spec fn pr_reserved(acc: Seq<char>, xs: Seq<ReservedModel>) -> Seq<char>
    decreases xs.len(),
{
    if xs.len() == 0 {
        acc
    } else {
        join_onto(pr_reserved(acc, xs.drop_last()) + "    reserved "@, ", "@, xs.last().reservations)
            + "\n"@
    }
}

pub open spec fn pr_frame(acc: Seq<char>, f: FrameModel) -> Seq<char> {
    pr_reserved(
        pr_fields(pr_attrs(acc + "  frame "@ + f.name + " {\n"@, f.attrs), f.fields),
        f.reservations,
    ) + "  }\n"@
}

pub open spec fn pr_frames(acc: Seq<char>, xs: Seq<FrameModel>) -> Seq<char>
    decreases xs.len(),
{
    if xs.len() == 0 {
        acc
    } else {
        pr_frame(pr_frames(acc, xs.drop_last()), xs.last())
    }
}

pub open spec fn pr_call(acc: Seq<char>, c: CallModel) -> Seq<char> {
    let head = with_hint(acc + "        "@, c.hint) + c.fun_name;
    if c.is_call {
        join_onto(head + "("@, ", "@, c.fun_params) + ")\n"@
    } else {
        join_onto(head + " "@, " "@, c.fun_params) + "\n"@
    }
}

pub open spec fn pr_calls(acc: Seq<char>, xs: Seq<CallModel>) -> Seq<char>
    decreases xs.len(),
{
    if xs.len() == 0 {
        acc
    } else {
        pr_call(pr_calls(acc, xs.drop_last()), xs.last())
    }
}

pub open spec fn pr_uses(acc: Seq<char>, xs: Seq<Seq<char>>) -> Seq<char>
    decreases xs.len(),
{
    if xs.len() == 0 {
        acc
    } else {
        pr_uses(acc, xs.drop_last()) + "        use "@ + xs.last() + "\n"@
    }
}

pub open spec fn pr_option(acc: Seq<char>, o: OptModel) -> Seq<char> {
    let head = acc + "      option ("@ + o.body.name + ") {\n"@;
    let with_uses = match o.body.namespaces {
        Some(ns) => pr_uses(head, ns),
        None => head,
    };
    pr_calls(with_uses, o.body.calls) + "      }\n"@
}

pub open spec fn pr_message(acc: Seq<char>, m: MessageModel) -> Seq<char> {
    let head = acc + "    message "@ + m.name + " {\n"@ + "      req: "@ + m.req + "\n"@
        + "      res: "@ + m.res + "\n"@;
    let with_body = match m.body {
        Some(o) => pr_option(head, o),
        None => head,
    };
    with_body + "    }\n"@
}

pub open spec fn pr_messages(acc: Seq<char>, xs: Seq<MessageModel>) -> Seq<char>
    decreases xs.len(),
{
    if xs.len() == 0 {
        acc
    } else {
        pr_message(pr_messages(acc, xs.drop_last()), xs.last())
    }
}

pub open spec fn pr_photon(acc: Seq<char>, p: PhotonModel) -> Seq<char> {
    pr_messages(pr_attrs(acc + "  synq "@ + p.name + " {\n"@, p.attrs), p.messages) + "  }\n"@
}

pub open spec fn pr_photons(acc: Seq<char>, xs: Seq<PhotonModel>) -> Seq<char>
    decreases xs.len(),
{
    if xs.len() == 0 {
        acc
    } else {
        pr_photon(pr_photons(acc, xs.drop_last()), xs.last())
    }
}

/// The first line of the outline and its sections for the imports,
/// options, constants, enums and frames that there are (in this order).
pub open spec fn outline_through_frames(
    package: Seq<char>,
    import: Seq<Seq<char>>,
    options: Seq<HintModel>,
    consts: Seq<ConstModel>,
    enums: Seq<EnumModel>,
    frames: Seq<FrameModel>,
) -> Seq<char> {
    let t0 = "AST for package: "@ + package + "\n"@;
    let t1 = if import.len() > 0 {
        pr_imports(t0 + "\nImports:\n"@, import)
    } else {
        t0
    };
    let t2 = if options.len() > 0 {
        pr_options(t1 + "\nOptions:\n"@, options)
    } else {
        t1
    };
    let t3 = if consts.len() > 0 {
        pr_consts(t2 + "\nConstants:\n"@, consts)
    } else {
        t2
    };
    let t4 = if enums.len() > 0 {
        pr_enums(t3 + "\nEnums:\n"@, enums)
    } else {
        t3
    };
    if frames.len() > 0 {
        pr_frames(t4 + "\nFrames:\n"@, frames)
    } else {
        t4
    }
}

/// The outline of a syntax tree: the package, then a section for each of
/// the imports, options, constants, enums, frames and photons that there
/// are (in this order), with one line per item and per member.
pub open spec fn outline(ast: AstModel) -> Seq<char> {
    let t5 = outline_through_frames(
        ast.package,
        ast.import,
        ast.options,
        ast.consts,
        ast.enums,
        ast.frames,
    );
    if ast.synqs.len() > 0 {
        pr_photons(t5 + "\nPhotons:\n"@, ast.synqs)
    } else {
        t5
    }
}

pub(crate) fn push_attrs(out: &mut String, xs: &Vec<Attribute>)
    ensures
        final(out)@ == pr_attrs(old(out)@, xs.deep_view()),
{
    let ghost v = xs.deep_view();
    let mut i: usize = 0;
    while i < xs.len()
        invariant
            v == xs.deep_view(),
            i <= xs@.len(),
            v.len() == xs@.len(),
            out@ == pr_attrs(old(out)@, v.take(i as int)),
        decreases xs@.len() - i,
    {
        assert(xs[i as int].deep_view() == v[i as int]);
        out.append("    @");
        out.append(xs[i].key.as_str());
        out.append("(");
        out.append(xs[i].val.as_str());
        out.append(")\n");
        assert(v.take(i + 1).drop_last() =~= v.take(i as int));
        i = i + 1;
    }
    assert(v.take(i as int) =~= v);
}

fn push_frame(out: &mut String, f: &FrameDecl)
    ensures
        final(out)@ == pr_frame(old(out)@, f.deep_view()),
{
    let ghost fm = f.deep_view();
    out.append("  frame ");
    out.append(f.name.as_str());
    out.append(" {\n");
    push_attrs(out, &f.attrs);
    let ghost base = out@;
    let mut i: usize = 0;
    while i < f.fields.len()
        invariant
            fm == f.deep_view(),
            i <= f.fields@.len(),
            fm.fields.len() == f.fields@.len(),
            out@ == pr_fields(base, fm.fields.take(i as int)),
        decreases f.fields@.len() - i,
    {
        let fd = &f.fields[i];
        assert(fd.deep_view() == fm.fields[i as int]);
        out.append("    ");
        push_hint(out, &fd.hint);
        out.append(fd.name.as_str());
        out.append(" ");
        out.append(fd.typ.as_str());
        out.append("\n");
        assert(fm.fields.take(i + 1).drop_last() =~= fm.fields.take(i as int));
        i = i + 1;
    }
    assert(fm.fields.take(i as int) =~= fm.fields);
    let ghost base = out@;
    let mut i: usize = 0;
    while i < f.reservations.len()
        invariant
            fm == f.deep_view(),
            i <= f.reservations@.len(),
            fm.reservations.len() == f.reservations@.len(),
            out@ == pr_reserved(base, fm.reservations.take(i as int)),
        decreases f.reservations@.len() - i,
    {
        let r = &f.reservations[i];
        assert(r.deep_view() == fm.reservations[i as int]);
        out.append("    reserved ");
        push_join(out, ", ", &r.reservations);
        out.append("\n");
        assert(fm.reservations.take(i + 1).drop_last() =~= fm.reservations.take(i as int));
        i = i + 1;
    }
    assert(fm.reservations.take(i as int) =~= fm.reservations);
    out.append("  }\n");
}

fn push_call(out: &mut String, c: &Call)
    ensures
        final(out)@ == pr_call(old(out)@, c.deep_view()),
{
    out.append("        ");
    push_hint(out, &c.hint);
    out.append(c.fun_name.as_str());
    if c.is_call {
        out.append("(");
        push_join(out, ", ", &c.fun_params);
        out.append(")\n");
    } else {
        out.append(" ");
        push_join(out, " ", &c.fun_params);
        out.append("\n");
    }
}

fn push_message(out: &mut String, m: &MessageDecl)
    ensures
        final(out)@ == pr_message(old(out)@, m.deep_view()),
{
    out.append("    message ");
    out.append(m.name.as_str());
    out.append(" {\n");
    out.append("      req: ");
    out.append(m.req.as_str());
    out.append("\n");
    out.append("      res: ");
    out.append(m.res.as_str());
    out.append("\n");
    match &m.body {
        Some(opt) => {
            let ghost om = opt.deep_view();
            out.append("      option (");
            out.append(opt.body.name.as_str());
            out.append(") {\n");
            match &opt.body.namespaces {
                Some(ns) => {
                    let ghost v = ns.deep_view();
                    let ghost base = out@;
                    let mut i: usize = 0;
                    while i < ns.len()
                        invariant
                            v == ns.deep_view(),
                            i <= ns@.len(),
                            v.len() == ns@.len(),
                            out@ == pr_uses(base, v.take(i as int)),
                        decreases ns@.len() - i,
                    {
                        out.append("        use ");
                        out.append(ns[i].as_str());
                        out.append("\n");
                        assert(v.take(i + 1).drop_last() =~= v.take(i as int));
                        i = i + 1;
                    }
                    assert(v.take(i as int) =~= v);
                },
                None => {},
            }
            let ghost base = out@;
            let mut i: usize = 0;
            while i < opt.body.calls.len()
                invariant
                    om == opt.deep_view(),
                    i <= opt.body.calls@.len(),
                    om.body.calls.len() == opt.body.calls@.len(),
                    out@ == pr_calls(base, om.body.calls.take(i as int)),
                decreases opt.body.calls@.len() - i,
            {
                assert(opt.body.calls[i as int].deep_view() == om.body.calls[i as int]);
                push_call(out, &opt.body.calls[i]);
                assert(om.body.calls.take(i + 1).drop_last() =~= om.body.calls.take(i as int));
                i = i + 1;
            }
            assert(om.body.calls.take(i as int) =~= om.body.calls);
            out.append("      }\n");
        },
        None => {},
    }
    out.append("    }\n");
}

fn push_photon(out: &mut String, p: &PhotonDecl)
    ensures
        final(out)@ == pr_photon(old(out)@, p.deep_view()),
{
    let ghost pm = p.deep_view();
    out.append("  synq ");
    out.append(p.name.as_str());
    out.append(" {\n");
    push_attrs(out, &p.attrs);
    let ghost base = out@;
    let mut i: usize = 0;
    while i < p.messages.len()
        invariant
            pm == p.deep_view(),
            i <= p.messages@.len(),
            pm.messages.len() == p.messages@.len(),
            out@ == pr_messages(base, pm.messages.take(i as int)),
        decreases p.messages@.len() - i,
    {
        assert(p.messages[i as int].deep_view() == pm.messages[i as int]);
        push_message(out, &p.messages[i]);
        assert(pm.messages.take(i + 1).drop_last() =~= pm.messages.take(i as int));
        i = i + 1;
    }
    assert(pm.messages.take(i as int) =~= pm.messages);
    out.append("  }\n");
}

fn push_enum(out: &mut String, e: &EnumDecl)
    ensures
        final(out)@ == pr_enum(old(out)@, e.deep_view()),
{
    let ghost em = e.deep_view();
    out.append("  enum ");
    out.append(e.name.as_str());
    out.append(" {\n");
    let ghost base = out@;
    let mut i: usize = 0;
    while i < e.consts.len()
        invariant
            em == e.deep_view(),
            i <= e.consts@.len(),
            em.consts.len() == e.consts@.len(),
            out@ == pr_enum_consts(base, em.consts.take(i as int)),
        decreases e.consts@.len() - i,
    {
        assert(e.consts[i as int].deep_view() == em.consts[i as int]);
        out.append("    ");
        out.append(e.consts[i].name.as_str());
        out.append(" = ");
        out.append(e.consts[i].value.as_str());
        out.append("\n");
        assert(em.consts.take(i + 1).drop_last() =~= em.consts.take(i as int));
        i = i + 1;
    }
    assert(em.consts.take(i as int) =~= em.consts);
    out.append("  }\n");
}

/// The first line of the outline and its sections for `import`, `options`,
/// `consts`, `enums` and `frames` (see [`outline_through_frames`]).
pub(crate) fn render_head(
    package: &String,
    import: &Vec<String>,
    options: &Vec<Hint>,
    consts: &Vec<ConstDecl>,
    enums: &Vec<EnumDecl>,
    frames: &Vec<FrameDecl>,
) -> (res: String)
    ensures
        res@ == outline_through_frames(
            package@,
            import.deep_view(),
            options.deep_view(),
            consts.deep_view(),
            enums.deep_view(),
            frames.deep_view(),
        ),
{
    let ghost mimport = import.deep_view();
    let ghost moptions = options.deep_view();
    let ghost mconsts = consts.deep_view();
    let ghost menums = enums.deep_view();
    let ghost mframes = frames.deep_view();
    let mut out = String::new();
    out.append("AST for package: ");
    out.append(package.as_str());
    out.append("\n");
    assert(out@ =~= "AST for package: "@ + package@ + "\n"@);
    if import.len() > 0 {
        out.append("\nImports:\n");
        let ghost base = out@;
        let mut i: usize = 0;
        while i < import.len()
            invariant
                mimport == import.deep_view(),
                i <= import@.len(),
                mimport.len() == import@.len(),
                out@ == pr_imports(base, mimport.take(i as int)),
            decreases import@.len() - i,
        {
            out.append("  - ");
            out.append(import[i].as_str());
            out.append("\n");
            assert(mimport.take(i + 1).drop_last() =~= mimport.take(i as int));
            i = i + 1;
        }
        assert(mimport.take(i as int) =~= mimport);
    }
    if options.len() > 0 {
        out.append("\nOptions:\n");
        let ghost base = out@;
        let mut i: usize = 0;
        while i < options.len()
            invariant
                moptions == options.deep_view(),
                i <= options@.len(),
                moptions.len() == options@.len(),
                out@ == pr_options(base, moptions.take(i as int)),
            decreases options@.len() - i,
        {
            assert(options[i as int].deep_view() == moptions[i as int]);
            out.append("  ");
            out.append(options[i].name.as_str());
            out.append(" = ");
            out.append(options[i].hint.as_str());
            out.append("\n");
            assert(moptions.take(i + 1).drop_last() =~= moptions.take(i as int));
            i = i + 1;
        }
        assert(moptions.take(i as int) =~= moptions);
    }
    if consts.len() > 0 {
        out.append("\nConstants:\n");
        let ghost base = out@;
        let mut i: usize = 0;
        while i < consts.len()
            invariant
                mconsts == consts.deep_view(),
                i <= consts@.len(),
                mconsts.len() == consts@.len(),
                out@ == pr_consts(base, mconsts.take(i as int)),
            decreases consts@.len() - i,
        {
            assert(consts[i as int].deep_view() == mconsts[i as int]);
            out.append("  const ");
            out.append(consts[i].name.as_str());
            out.append(" = ");
            out.append(consts[i].value.as_str());
            out.append("\n");
            assert(mconsts.take(i + 1).drop_last() =~= mconsts.take(i as int));
            i = i + 1;
        }
        assert(mconsts.take(i as int) =~= mconsts);
    }
    if enums.len() > 0 {
        out.append("\nEnums:\n");
        let ghost base = out@;
        let mut i: usize = 0;
        while i < enums.len()
            invariant
                menums == enums.deep_view(),
                i <= enums@.len(),
                menums.len() == enums@.len(),
                out@ == pr_enums(base, menums.take(i as int)),
            decreases enums@.len() - i,
        {
            assert(enums[i as int].deep_view() == menums[i as int]);
            push_enum(&mut out, &enums[i]);
            assert(menums.take(i + 1).drop_last() =~= menums.take(i as int));
            i = i + 1;
        }
        assert(menums.take(i as int) =~= menums);
    }
    if frames.len() > 0 {
        out.append("\nFrames:\n");
        let ghost base = out@;
        let mut i: usize = 0;
        while i < frames.len()
            invariant
                mframes == frames.deep_view(),
                i <= frames@.len(),
                mframes.len() == frames@.len(),
                out@ == pr_frames(base, mframes.take(i as int)),
            decreases frames@.len() - i,
        {
            assert(frames[i as int].deep_view() == mframes[i as int]);
            push_frame(&mut out, &frames[i]);
            assert(mframes.take(i + 1).drop_last() =~= mframes.take(i as int));
            i = i + 1;
        }
        assert(mframes.take(i as int) =~= mframes);
    }
    out
}

impl AstPrinter {
    /// The outline of `ast` (see [`outline`]): the text that printing the
    /// tree shows.
    pub fn render(ast: &Ast) -> (res: String)
        ensures
            res@ == outline(ast.deep_view()),
    {
        let ghost m = ast.deep_view();
        let mut out = render_head(
            &ast.package,
            &ast.import,
            &ast.options,
            &ast.consts,
            &ast.enums,
            &ast.frames,
        );
        if ast.synqs.len() > 0 {
            out.append("\nPhotons:\n");
            let ghost base = out@;
            let mut i: usize = 0;
            while i < ast.synqs.len()
                invariant
                    m == ast.deep_view(),
                    i <= ast.synqs@.len(),
                    m.synqs.len() == ast.synqs@.len(),
                    out@ == pr_photons(base, m.synqs.take(i as int)),
                decreases ast.synqs@.len() - i,
            {
                assert(ast.synqs[i as int].deep_view() == m.synqs[i as int]);
                push_photon(&mut out, &ast.synqs[i]);
                assert(m.synqs.take(i + 1).drop_last() =~= m.synqs.take(i as int));
                i = i + 1;
            }
            assert(m.synqs.take(i as int) =~= m.synqs);
        }
        out
    }
}

/// `a` is the beginning of `b`.
pub open spec fn is_prefix(a: Seq<char>, b: Seq<char>) -> bool {
    a.len() <= b.len() && b.subrange(0, a.len() as int) == a
}

/// `needle` occurs somewhere in `hay`.
pub open spec fn contains(hay: Seq<char>, needle: Seq<char>) -> bool {
    exists|i: int| 0 <= i && i + needle.len() <= hay.len() && #[trigger] hay.subrange(i, i + needle.len()) == needle
}

pub proof fn lemma_prefix_append(a: Seq<char>, x: Seq<char>)
    ensures
        is_prefix(a, a + x),
{
    assert((a + x).subrange(0, a.len() as int) =~= a);
}

pub proof fn lemma_prefix_trans(a: Seq<char>, b: Seq<char>, c: Seq<char>)
    requires
        is_prefix(a, b),
        is_prefix(b, c),
    ensures
        is_prefix(a, c),
{
    assert(c.subrange(0, a.len() as int) =~= b.subrange(0, a.len() as int));
}

pub proof fn lemma_contains_after_prefix(p: Seq<char>, needle: Seq<char>, hay: Seq<char>)
    requires
        is_prefix(p + needle, hay),
    ensures
        contains(hay, needle),
{
    let i = p.len() as int;
    assert(hay.subrange(i, i + needle.len()) =~= needle) by {
        assert forall|k: int| 0 <= k < needle.len() implies hay.subrange(i, i + needle.len())[k]
            == needle[k] by {
            assert(hay[i + k] == hay.subrange(0, (p + needle).len() as int)[i + k]);
        }
    }
}

proof fn lemma_mm_fields_take(acc: Seq<char>, f: Seq<char>, fds: Seq<FieldModel>, k: int)
    requires
        0 <= k <= fds.len(),
    ensures
        is_prefix(mm_fields(acc, f, fds.take(k)), mm_fields(acc, f, fds)),
    decreases fds.len(),
{
    if k == fds.len() {
        assert(fds.take(k) =~= fds);
        lemma_prefix_append(mm_fields(acc, f, fds), Seq::empty());
        assert(mm_fields(acc, f, fds) + Seq::empty() =~= mm_fields(acc, f, fds));
    } else {
        let d = fds.drop_last();
        lemma_mm_fields_take(acc, f, d, k);
        assert(d.take(k) =~= fds.take(k));
        let m = mm_fields(acc, f, d);
        let fd = fds.last();
        let full = mm_field(m, f, fd);
        let piece = "  F_"@ + f + " --> FF_"@ + f + "_"@ + fd.name + "[\""@;
        assert(full =~= m + (with_hint(piece, fd.hint) + fd.name + ": "@ + fd.typ + "\"]\n"@)) by {
            match fd.hint {
                Some(h) => {},
                None => {},
            }
        }
        lemma_prefix_append(m, with_hint(piece, fd.hint) + fd.name + ": "@ + fd.typ + "\"]\n"@);
        lemma_prefix_trans(mm_fields(acc, f, fds.take(k)), m, full);
    }
}

proof fn lemma_mm_frames_take(acc: Seq<char>, fs: Seq<FrameModel>, k: int)
    requires
        0 <= k <= fs.len(),
    ensures
        is_prefix(mm_frames(acc, fs.take(k)), mm_frames(acc, fs)),
    decreases fs.len(),
{
    if k == fs.len() {
        assert(fs.take(k) =~= fs);
        assert(mm_frames(acc, fs).subrange(0, mm_frames(acc, fs).len() as int) =~= mm_frames(acc, fs));
    } else {
        let d = fs.drop_last();
        lemma_mm_frames_take(acc, d, k);
        assert(d.take(k) =~= fs.take(k));
        let m = mm_frames(acc, d);
        let fr = fs.last();
        let h = m + "  Frames --> F_"@ + fr.name + "[Frame: "@ + fr.name + "]\n"@;
        lemma_mm_fields_take(h, fr.name, fr.fields, 0);
        assert(fr.fields.take(0) =~= Seq::<FieldModel>::empty());
        assert(h =~= m + ("  Frames --> F_"@ + fr.name + "[Frame: "@ + fr.name + "]\n"@));
        lemma_prefix_append(m, "  Frames --> F_"@ + fr.name + "[Frame: "@ + fr.name + "]\n"@);
        lemma_prefix_trans(m, h, mm_frames(acc, fs));
        lemma_prefix_trans(mm_frames(acc, fs.take(k)), m, mm_frames(acc, fs));
    }
}

proof fn lemma_mm_messages_take(acc: Seq<char>, p: Seq<char>, ms: Seq<MessageModel>, k: int)
    requires
        0 <= k <= ms.len(),
    ensures
        is_prefix(mm_messages(acc, p, ms.take(k)), mm_messages(acc, p, ms)),
    decreases ms.len(),
{
    if k == ms.len() {
        assert(ms.take(k) =~= ms);
        assert(mm_messages(acc, p, ms).subrange(0, mm_messages(acc, p, ms).len() as int)
            =~= mm_messages(acc, p, ms));
    } else {
        let d = ms.drop_last();
        lemma_mm_messages_take(acc, p, d, k);
        assert(d.take(k) =~= ms.take(k));
        let m = mm_messages(acc, p, d);
        let full = mm_message(m, p, ms.last());
        assert(full.subrange(0, m.len() as int) =~= m);
        lemma_prefix_trans(mm_messages(acc, p, ms.take(k)), m, full);
    }
}

proof fn lemma_mm_photons_take(acc: Seq<char>, ps: Seq<PhotonModel>, k: int)
    requires
        0 <= k <= ps.len(),
    ensures
        is_prefix(mm_photons(acc, ps.take(k)), mm_photons(acc, ps)),
    decreases ps.len(),
{
    if k == ps.len() {
        assert(ps.take(k) =~= ps);
        assert(mm_photons(acc, ps).subrange(0, mm_photons(acc, ps).len() as int) =~= mm_photons(acc, ps));
    } else {
        let d = ps.drop_last();
        lemma_mm_photons_take(acc, d, k);
        assert(d.take(k) =~= ps.take(k));
        let m = mm_photons(acc, d);
        let ph = ps.last();
        let h = m + "  Photons --> P_"@ + ph.name + "[Photon: "@ + ph.name + "]\n"@;
        lemma_mm_messages_take(h, ph.name, ph.messages, 0);
        assert(ph.messages.take(0) =~= Seq::<MessageModel>::empty());
        assert(h.subrange(0, m.len() as int) =~= m);
        lemma_prefix_trans(m, h, mm_photons(acc, ps));
        lemma_prefix_trans(mm_photons(acc, ps.take(k)), m, mm_photons(acc, ps));
    }
}

/// The text that the diagram shows for a field: its hint, name and type.
pub open spec fn field_label(fd: FieldModel) -> Seq<char> {
    with_hint(Seq::empty(), fd.hint) + fd.name + ": "@ + fd.typ
}

proof fn lemma_contains_in_prefix(small: Seq<char>, big: Seq<char>, needle: Seq<char>)
    requires
        contains(small, needle),
        is_prefix(small, big),
    ensures
        contains(big, needle),
{
    let i = choose|i: int|
        0 <= i && i + needle.len() <= small.len() && #[trigger] small.subrange(i, i + needle.len())
            == needle;
    assert(big.subrange(i, i + needle.len()) =~= small.subrange(i, i + needle.len()));
}

proof fn lemma_field_piece(m: Seq<char>, f: Seq<char>, fd: FieldModel)
    ensures
        mm_field(m, f, fd) =~= (m + "  F_"@ + f + " --> FF_"@ + f + "_"@ + fd.name) + ("[\""@
            + field_label(fd) + "\"]\n"@),
{
    match fd.hint {
        Some(hh) => {},
        None => {},
    }
}

/// Each frame's header and field lines appear in the frames' text.
proof fn lemma_frame_shown(base: Seq<char>, fs: Seq<FrameModel>, i: int, j: int)
    requires
        0 <= i < fs.len(),
    ensures
        contains(mm_frames(base, fs), "[Frame: "@ + fs[i].name + "]\n"@),
        0 <= j < fs[i].fields.len() ==> contains(
            mm_frames(base, fs),
            "[\""@ + field_label(fs[i].fields[j]) + "\"]\n"@,
        ),
{
    let all = mm_frames(base, fs);
    lemma_mm_frames_take(base, fs, i + 1);
    let ts = fs.take(i + 1);
    assert(ts.drop_last() =~= fs.take(i));
    let m = mm_frames(base, fs.take(i));
    let f = fs[i];
    let h = m + "  Frames --> F_"@ + f.name + "[Frame: "@ + f.name + "]\n"@;
    let upto = mm_frames(base, ts);
    assert(upto == mm_fields(h, f.name, f.fields));
    lemma_mm_fields_take(h, f.name, f.fields, 0);
    assert(f.fields.take(0) =~= Seq::<FieldModel>::empty());
    let p = m + "  Frames --> F_"@ + f.name;
    assert(p + ("[Frame: "@ + f.name + "]\n"@) =~= h);
    lemma_prefix_append(p + ("[Frame: "@ + f.name + "]\n"@), Seq::empty());
    assert(p + ("[Frame: "@ + f.name + "]\n"@) + Seq::empty() =~= h);
    lemma_contains_after_prefix(p, "[Frame: "@ + f.name + "]\n"@, h);
    lemma_contains_in_prefix(h, upto, "[Frame: "@ + f.name + "]\n"@);
    lemma_contains_in_prefix(upto, all, "[Frame: "@ + f.name + "]\n"@);
    if 0 <= j < f.fields.len() {
        lemma_mm_fields_take(h, f.name, f.fields, j + 1);
        let ds = f.fields.take(j + 1);
        assert(ds.drop_last() =~= f.fields.take(j));
        let mf = mm_fields(h, f.name, f.fields.take(j));
        let fd = f.fields[j];
        let q = mf + "  F_"@ + f.name + " --> FF_"@ + f.name + "_"@ + fd.name;
        let needle = "[\""@ + field_label(fd) + "\"]\n"@;
        lemma_field_piece(mf, f.name, fd);
        let piece = mm_fields(h, f.name, ds);
        assert(piece == q + needle);
        assert(piece.subrange(0, piece.len() as int) =~= piece);
        lemma_contains_after_prefix(q, needle, piece);
        lemma_contains_in_prefix(piece, upto, needle);
        lemma_contains_in_prefix(upto, all, needle);
    }
}

proof fn lemma_message_pieces(mm: Seq<char>, pn: Seq<char>, msg: MessageModel)
    ensures
        contains(mm_message(mm, pn, msg), "[Message: "@ + msg.name + "]\n"@),
        contains(mm_message(mm, pn, msg), "_Q[Req: "@ + msg.req + "]\n"@),
        contains(mm_message(mm, pn, msg), "_S[Res: "@ + msg.res + "]\n"@),
{
    let text = mm_message(mm, pn, msg);
    let q1 = mm + "  P_"@ + pn + " --> PM_"@ + pn + "_"@ + msg.name;
    let n1 = "[Message: "@ + msg.name + "]\n"@;
    let q2 = q1 + n1 + "  PM_"@ + pn + "_"@ + msg.name + " --> PMR_"@ + pn + "_"@ + msg.name;
    let n2 = "_Q[Req: "@ + msg.req + "]\n"@;
    let q3 = q2 + n2 + "  PM_"@ + pn + "_"@ + msg.name + " --> PMR_"@ + pn + "_"@ + msg.name;
    let n3 = "_S[Res: "@ + msg.res + "]\n"@;
    assert(text =~= q3 + n3);
    assert(text.subrange(0, (q1 + n1).len() as int) =~= q1 + n1);
    assert(text.subrange(0, (q2 + n2).len() as int) =~= q2 + n2);
    assert(text.subrange(0, (q3 + n3).len() as int) =~= q3 + n3);
    lemma_contains_after_prefix(q1, n1, text);
    lemma_contains_after_prefix(q2, n2, text);
    lemma_contains_after_prefix(q3, n3, text);
}

/// Each photon's header and message lines appear in the photons' text.
proof fn lemma_photon_shown(base: Seq<char>, ps: Seq<PhotonModel>, i: int, j: int)
    requires
        0 <= i < ps.len(),
    ensures
        contains(mm_photons(base, ps), "[Photon: "@ + ps[i].name + "]\n"@),
        0 <= j < ps[i].messages.len() ==> {
            let m = ps[i].messages[j];
            &&& contains(mm_photons(base, ps), "[Message: "@ + m.name + "]\n"@)
            &&& contains(mm_photons(base, ps), "_Q[Req: "@ + m.req + "]\n"@)
            &&& contains(mm_photons(base, ps), "_S[Res: "@ + m.res + "]\n"@)
        },
{
    let all = mm_photons(base, ps);
    lemma_mm_photons_take(base, ps, i + 1);
    let ts = ps.take(i + 1);
    assert(ts.drop_last() =~= ps.take(i));
    let m0 = mm_photons(base, ps.take(i));
    let ph = ps[i];
    let h = m0 + "  Photons --> P_"@ + ph.name + "[Photon: "@ + ph.name + "]\n"@;
    let upto = mm_photons(base, ts);
    assert(upto == mm_messages(h, ph.name, ph.messages));
    lemma_mm_messages_take(h, ph.name, ph.messages, 0);
    assert(ph.messages.take(0) =~= Seq::<MessageModel>::empty());
    let p = m0 + "  Photons --> P_"@ + ph.name;
    assert(p + ("[Photon: "@ + ph.name + "]\n"@) =~= h);
    assert(h.subrange(0, h.len() as int) =~= h);
    lemma_contains_after_prefix(p, "[Photon: "@ + ph.name + "]\n"@, h);
    lemma_contains_in_prefix(h, upto, "[Photon: "@ + ph.name + "]\n"@);
    lemma_contains_in_prefix(upto, all, "[Photon: "@ + ph.name + "]\n"@);
    if 0 <= j < ph.messages.len() {
        lemma_mm_messages_take(h, ph.name, ph.messages, j + 1);
        let ds = ph.messages.take(j + 1);
        assert(ds.drop_last() =~= ph.messages.take(j));
        let mm = mm_messages(h, ph.name, ph.messages.take(j));
        let msg = ph.messages[j];
        let piece = mm_messages(h, ph.name, ds);
        assert(piece == mm_message(mm, ph.name, msg));
        lemma_message_pieces(mm, ph.name, msg);
        lemma_contains_in_prefix(piece, upto, "[Message: "@ + msg.name + "]\n"@);
        lemma_contains_in_prefix(upto, all, "[Message: "@ + msg.name + "]\n"@);
        lemma_contains_in_prefix(piece, upto, "_Q[Req: "@ + msg.req + "]\n"@);
        lemma_contains_in_prefix(upto, all, "_Q[Req: "@ + msg.req + "]\n"@);
        lemma_contains_in_prefix(piece, upto, "_S[Res: "@ + msg.res + "]\n"@);
        lemma_contains_in_prefix(upto, all, "_S[Res: "@ + msg.res + "]\n"@);
    }
}

/// Law: the Mermaid diagram shows every frame by name, and every field of
/// it by its label (hint, name and type).
pub proof fn law_mermaid_shows_frames_and_fields(ast: AstModel, i: int, j: int)
    requires
        0 <= i < ast.frames.len(),
    ensures
        contains(mermaid(ast), "[Frame: "@ + ast.frames[i].name + "]\n"@),
        0 <= j < ast.frames[i].fields.len() ==> contains(
            mermaid(ast),
            "[\""@ + field_label(ast.frames[i].fields[j]) + "\"]\n"@,
        ),
{
    let c = mermaid_through_frames(ast.package, ast.consts, ast.enums, ast.frames);
    let full = mermaid(ast);
    assert(is_prefix(c, full)) by {
        if ast.synqs.len() > 0 {
            lemma_mm_photons_take(c + "  Root --> Photons[Photons]\n"@, ast.synqs, 0);
            assert(ast.synqs.take(0) =~= Seq::<PhotonModel>::empty());
            lemma_prefix_append(c, "  Root --> Photons[Photons]\n"@);
            lemma_prefix_trans(c, c + "  Root --> Photons[Photons]\n"@, full);
        } else {
            assert(full.subrange(0, full.len() as int) =~= full);
        }
    }
    let head = "graph TD\n"@ + "  Root[Package: "@ + ast.package + "]\n"@;
    let a = if ast.consts.len() > 0 {
        mm_consts(head + "  Root --> Consts[Constants]\n"@, ast.consts)
    } else {
        head
    };
    let b = if ast.enums.len() > 0 {
        mm_enums(a + "  Root --> Enums[Enums]\n"@, ast.enums)
    } else {
        a
    };
    lemma_frame_shown(b + "  Root --> Frames[Frames]\n"@, ast.frames, i, j);
    lemma_contains_in_prefix(c, full, "[Frame: "@ + ast.frames[i].name + "]\n"@);
    if 0 <= j < ast.frames[i].fields.len() {
        lemma_contains_in_prefix(
            c,
            full,
            "[\""@ + field_label(ast.frames[i].fields[j]) + "\"]\n"@,
        );
    }
}

/// Law: the Mermaid diagram shows every photon by name, and every message
/// of it by name, request and response.
pub proof fn law_mermaid_shows_photons_and_messages(ast: AstModel, i: int, j: int)
    requires
        0 <= i < ast.synqs.len(),
    ensures
        contains(mermaid(ast), "[Photon: "@ + ast.synqs[i].name + "]\n"@),
        0 <= j < ast.synqs[i].messages.len() ==> {
            let m = ast.synqs[i].messages[j];
            &&& contains(mermaid(ast), "[Message: "@ + m.name + "]\n"@)
            &&& contains(mermaid(ast), "_Q[Req: "@ + m.req + "]\n"@)
            &&& contains(mermaid(ast), "_S[Res: "@ + m.res + "]\n"@)
        },
{
    let c = mermaid_through_frames(ast.package, ast.consts, ast.enums, ast.frames);
    assert(mermaid(ast) == mm_photons(c + "  Root --> Photons[Photons]\n"@, ast.synqs));
    lemma_photon_shown(c + "  Root --> Photons[Photons]\n"@, ast.synqs, i, j);
}

} // verus!
