//! Laws of the Mermaid diagram: what it is made of, section by section,
//! and which parts of a tree it leaves out.
use crate::synq::ast::{
    AstModel, ConstModel, EnumModel, FieldModel, FrameModel, MessageModel, PhotonModel,
};
use crate::synq::ast_printer::{
    mermaid, mermaid_through_frames, mm_const, mm_consts, mm_enum, mm_enum_const,
    mm_enum_consts, mm_enums, mm_field, mm_fields, mm_frame, mm_frames, mm_message, mm_messages, mm_photon, mm_photons, with_hint,
};
use crate::text::{first_newline, lemma_first_newline_bounds, lemma_first_newline_first, lines};
use vstd::prelude::*;
use vstd::seq_lib::lemma_concat_associative;

verus! {

/// The branch of the constants: empty when there are none.
pub open spec fn consts_section(cs: Seq<ConstModel>) -> Seq<char> {
    if cs.len() > 0 {
        mm_consts("  Root --> Consts[Constants]\n"@, cs)
    } else {
        Seq::empty()
    }
}

/// The branch of the enums: empty when there are none.
pub open spec fn enums_section(es: Seq<EnumModel>) -> Seq<char> {
    if es.len() > 0 {
        mm_enums("  Root --> Enums[Enums]\n"@, es)
    } else {
        Seq::empty()
    }
}

/// The branch of the frames: empty when there are none.
pub open spec fn frames_section(fs: Seq<FrameModel>) -> Seq<char> {
    if fs.len() > 0 {
        mm_frames("  Root --> Frames[Frames]\n"@, fs)
    } else {
        Seq::empty()
    }
}

/// The branch of the photons: empty when there are none.
pub open spec fn photons_section(ps: Seq<PhotonModel>) -> Seq<char> {
    if ps.len() > 0 {
        mm_photons("  Root --> Photons[Photons]\n"@, ps)
    } else {
        Seq::empty()
    }
}

#[verifier::spinoff_prover]
proof fn lemma_consts_acc(acc: Seq<char>, cs: Seq<ConstModel>)
    ensures
        mm_consts(acc, cs) == acc + mm_consts(Seq::empty(), cs),
    decreases cs.len(),
{
    if cs.len() == 0 {
        assert(acc + Seq::<char>::empty() =~= acc);
    } else {
        lemma_consts_acc(acc, cs.drop_last());
        assert(mm_consts(acc, cs) =~= acc + mm_consts(Seq::empty(), cs));
    }
}

#[verifier::spinoff_prover]
proof fn lemma_enum_consts_acc(acc: Seq<char>, e: Seq<char>, cs: Seq<ConstModel>)
    ensures
        mm_enum_consts(acc, e, cs) == acc + mm_enum_consts(Seq::empty(), e, cs),
    decreases cs.len(),
{
    if cs.len() == 0 {
        assert(acc + Seq::<char>::empty() =~= acc);
    } else {
        lemma_enum_consts_acc(acc, e, cs.drop_last());
        assert(mm_enum_consts(acc, e, cs) =~= acc + mm_enum_consts(Seq::empty(), e, cs));
    }
}

#[verifier::spinoff_prover]
proof fn lemma_enums_acc(acc: Seq<char>, es: Seq<EnumModel>)
    ensures
        mm_enums(acc, es) == acc + mm_enums(Seq::empty(), es),
    decreases es.len(),
{
    if es.len() == 0 {
        assert(acc + Seq::<char>::empty() =~= acc);
    } else {
        let e = es.last();
        lemma_enums_acc(acc, es.drop_last());
        let x = mm_enums(Seq::empty(), es.drop_last());
        let a1 = (acc + x) + "  Enums --> E_"@ + e.name + "[Enum: "@ + e.name + "]\n"@;
        let b1 = x + "  Enums --> E_"@ + e.name + "[Enum: "@ + e.name + "]\n"@;
        lemma_enum_consts_acc(a1, e.name, e.consts);
        lemma_enum_consts_acc(b1, e.name, e.consts);
        assert(a1 =~= acc + b1);
        assert(mm_enum(acc + x, e) =~= acc + mm_enum(x, e));
    }
}

#[verifier::spinoff_prover]
proof fn lemma_fields_acc(acc: Seq<char>, f: Seq<char>, fds: Seq<FieldModel>)
    ensures
        mm_fields(acc, f, fds) == acc + mm_fields(Seq::empty(), f, fds),
    decreases fds.len(),
{
    if fds.len() == 0 {
        assert(acc + Seq::<char>::empty() =~= acc);
    } else {
        lemma_fields_acc(acc, f, fds.drop_last());
        let x = mm_fields(Seq::empty(), f, fds.drop_last());
        let fd = fds.last();
        let a = acc + x + "  F_"@ + f + " --> FF_"@ + f + "_"@ + fd.name + "[\""@;
        let b = x + "  F_"@ + f + " --> FF_"@ + f + "_"@ + fd.name + "[\""@;
        assert(with_hint(a, fd.hint) =~= acc + with_hint(b, fd.hint));
        assert(mm_field(acc + x, f, fd) =~= acc + mm_field(x, f, fd));
    }
}

#[verifier::spinoff_prover]
proof fn lemma_frames_acc(acc: Seq<char>, fs: Seq<FrameModel>)
    ensures
        mm_frames(acc, fs) == acc + mm_frames(Seq::empty(), fs),
    decreases fs.len(),
{
    if fs.len() == 0 {
        assert(acc + Seq::<char>::empty() =~= acc);
    } else {
        let f = fs.last();
        lemma_frames_acc(acc, fs.drop_last());
        let x = mm_frames(Seq::empty(), fs.drop_last());
        let a1 = (acc + x) + "  Frames --> F_"@ + f.name + "[Frame: "@ + f.name + "]\n"@;
        let b1 = x + "  Frames --> F_"@ + f.name + "[Frame: "@ + f.name + "]\n"@;
        lemma_fields_acc(a1, f.name, f.fields);
        lemma_fields_acc(b1, f.name, f.fields);
        assert(a1 =~= acc + b1);
        assert(mm_frame(acc + x, f) =~= acc + mm_frame(x, f));
    }
}

#[verifier::spinoff_prover]
proof fn lemma_message_acc(acc: Seq<char>, p: Seq<char>, m: MessageModel)
    ensures
        mm_message(acc, p, m) == acc + mm_message(Seq::empty(), p, m),
{
    let e0 = Seq::<char>::empty();
    let a0 = acc;
    assert(a0 =~= acc + e0);
    let a1 = a0 + "  P_"@;
    let e1 = e0 + "  P_"@;
    lemma_concat_associative(acc, e0, "  P_"@);
    let a2 = a1 + p;
    let e2 = e1 + p;
    lemma_concat_associative(acc, e1, p);
    let a3 = a2 + " --> PM_"@;
    let e3 = e2 + " --> PM_"@;
    lemma_concat_associative(acc, e2, " --> PM_"@);
    let a4 = a3 + p;
    let e4 = e3 + p;
    lemma_concat_associative(acc, e3, p);
    let a5 = a4 + "_"@;
    let e5 = e4 + "_"@;
    lemma_concat_associative(acc, e4, "_"@);
    let a6 = a5 + m.name;
    let e6 = e5 + m.name;
    lemma_concat_associative(acc, e5, m.name);
    let a7 = a6 + "[Message: "@;
    let e7 = e6 + "[Message: "@;
    lemma_concat_associative(acc, e6, "[Message: "@);
    let a8 = a7 + m.name;
    let e8 = e7 + m.name;
    lemma_concat_associative(acc, e7, m.name);
    let a9 = a8 + "]\n"@;
    let e9 = e8 + "]\n"@;
    lemma_concat_associative(acc, e8, "]\n"@);
    let a10 = a9 + "  PM_"@;
    let e10 = e9 + "  PM_"@;
    lemma_concat_associative(acc, e9, "  PM_"@);
    let a11 = a10 + p;
    let e11 = e10 + p;
    lemma_concat_associative(acc, e10, p);
    let a12 = a11 + "_"@;
    let e12 = e11 + "_"@;
    lemma_concat_associative(acc, e11, "_"@);
    let a13 = a12 + m.name;
    let e13 = e12 + m.name;
    lemma_concat_associative(acc, e12, m.name);
    let a14 = a13 + " --> PMR_"@;
    let e14 = e13 + " --> PMR_"@;
    lemma_concat_associative(acc, e13, " --> PMR_"@);
    let a15 = a14 + p;
    let e15 = e14 + p;
    lemma_concat_associative(acc, e14, p);
    let a16 = a15 + "_"@;
    let e16 = e15 + "_"@;
    lemma_concat_associative(acc, e15, "_"@);
    let a17 = a16 + m.name;
    let e17 = e16 + m.name;
    lemma_concat_associative(acc, e16, m.name);
    let a18 = a17 + "_Q[Req: "@;
    let e18 = e17 + "_Q[Req: "@;
    lemma_concat_associative(acc, e17, "_Q[Req: "@);
    let a19 = a18 + m.req;
    let e19 = e18 + m.req;
    lemma_concat_associative(acc, e18, m.req);
    let a20 = a19 + "]\n"@;
    let e20 = e19 + "]\n"@;
    lemma_concat_associative(acc, e19, "]\n"@);
    let a21 = a20 + "  PM_"@;
    let e21 = e20 + "  PM_"@;
    lemma_concat_associative(acc, e20, "  PM_"@);
    let a22 = a21 + p;
    let e22 = e21 + p;
    lemma_concat_associative(acc, e21, p);
    let a23 = a22 + "_"@;
    let e23 = e22 + "_"@;
    lemma_concat_associative(acc, e22, "_"@);
    let a24 = a23 + m.name;
    let e24 = e23 + m.name;
    lemma_concat_associative(acc, e23, m.name);
    let a25 = a24 + " --> PMR_"@;
    let e25 = e24 + " --> PMR_"@;
    lemma_concat_associative(acc, e24, " --> PMR_"@);
    let a26 = a25 + p;
    let e26 = e25 + p;
    lemma_concat_associative(acc, e25, p);
    let a27 = a26 + "_"@;
    let e27 = e26 + "_"@;
    lemma_concat_associative(acc, e26, "_"@);
    let a28 = a27 + m.name;
    let e28 = e27 + m.name;
    lemma_concat_associative(acc, e27, m.name);
    let a29 = a28 + "_S[Res: "@;
    let e29 = e28 + "_S[Res: "@;
    lemma_concat_associative(acc, e28, "_S[Res: "@);
    let a30 = a29 + m.res;
    let e30 = e29 + m.res;
    lemma_concat_associative(acc, e29, m.res);
    let a31 = a30 + "]\n"@;
    let e31 = e30 + "]\n"@;
    lemma_concat_associative(acc, e30, "]\n"@);
    assert(mm_message(acc, p, m) == a31);
    assert(mm_message(e0, p, m) == e31);
}

#[verifier::spinoff_prover]
proof fn lemma_messages_acc(acc: Seq<char>, p: Seq<char>, ms: Seq<MessageModel>)
    ensures
        mm_messages(acc, p, ms) == acc + mm_messages(Seq::empty(), p, ms),
    decreases ms.len(),
{
    if ms.len() == 0 {
        assert(acc + Seq::<char>::empty() =~= acc);
    } else {
        lemma_messages_acc(acc, p, ms.drop_last());
        let x = mm_messages(Seq::empty(), p, ms.drop_last());
        lemma_message_acc(acc + x, p, ms.last());
        lemma_message_acc(x, p, ms.last());
        assert((acc + x) + mm_message(Seq::empty(), p, ms.last()) =~= acc + (x + mm_message(
            Seq::empty(),
            p,
            ms.last(),
        )));
    }
}

#[verifier::spinoff_prover]
proof fn lemma_photons_acc(acc: Seq<char>, ps: Seq<PhotonModel>)
    ensures
        mm_photons(acc, ps) == acc + mm_photons(Seq::empty(), ps),
    decreases ps.len(),
{
    if ps.len() == 0 {
        assert(acc + Seq::<char>::empty() =~= acc);
    } else {
        let p = ps.last();
        lemma_photons_acc(acc, ps.drop_last());
        let x = mm_photons(Seq::empty(), ps.drop_last());
        let a1 = (acc + x) + "  Photons --> P_"@ + p.name + "[Photon: "@ + p.name + "]\n"@;
        let b1 = x + "  Photons --> P_"@ + p.name + "[Photon: "@ + p.name + "]\n"@;
        lemma_messages_acc(a1, p.name, p.messages);
        lemma_messages_acc(b1, p.name, p.messages);
        assert(a1 =~= acc + b1);
        assert(mm_photon(acc + x, p) =~= acc + mm_photon(x, p));
    }
}

proof fn lemma_consts_section(pre: Seq<char>, cs: Seq<ConstModel>)
    ensures
        (if cs.len() > 0 {
            mm_consts(pre + "  Root --> Consts[Constants]\n"@, cs)
        } else {
            pre
        }) == pre + consts_section(cs),
        consts_section(cs).len() == 0 <==> cs.len() == 0,
{
    let l = "  Root --> Consts[Constants]\n"@;
    if cs.len() > 0 {
        lemma_consts_acc(pre + l, cs);
        lemma_consts_acc(l, cs);
        reveal_strlit("  Root --> Consts[Constants]\n");
        assert(pre + l + mm_consts(Seq::empty(), cs) =~= pre + (l + mm_consts(Seq::empty(), cs)));
    } else {
        assert(pre + Seq::<char>::empty() =~= pre);
    }
}

proof fn lemma_enums_section(pre: Seq<char>, es: Seq<EnumModel>)
    ensures
        (if es.len() > 0 {
            mm_enums(pre + "  Root --> Enums[Enums]\n"@, es)
        } else {
            pre
        }) == pre + enums_section(es),
        enums_section(es).len() == 0 <==> es.len() == 0,
{
    let l = "  Root --> Enums[Enums]\n"@;
    if es.len() > 0 {
        lemma_enums_acc(pre + l, es);
        lemma_enums_acc(l, es);
        reveal_strlit("  Root --> Enums[Enums]\n");
        assert(pre + l + mm_enums(Seq::empty(), es) =~= pre + (l + mm_enums(Seq::empty(), es)));
    } else {
        assert(pre + Seq::<char>::empty() =~= pre);
    }
}

proof fn lemma_frames_section(pre: Seq<char>, fs: Seq<FrameModel>)
    ensures
        (if fs.len() > 0 {
            mm_frames(pre + "  Root --> Frames[Frames]\n"@, fs)
        } else {
            pre
        }) == pre + frames_section(fs),
        frames_section(fs).len() == 0 <==> fs.len() == 0,
{
    let l = "  Root --> Frames[Frames]\n"@;
    if fs.len() > 0 {
        lemma_frames_acc(pre + l, fs);
        lemma_frames_acc(l, fs);
        reveal_strlit("  Root --> Frames[Frames]\n");
        assert(pre + l + mm_frames(Seq::empty(), fs) =~= pre + (l + mm_frames(Seq::empty(), fs)));
    } else {
        assert(pre + Seq::<char>::empty() =~= pre);
    }
}

proof fn lemma_photons_section(pre: Seq<char>, ps: Seq<PhotonModel>)
    ensures
        (if ps.len() > 0 {
            mm_photons(pre + "  Root --> Photons[Photons]\n"@, ps)
        } else {
            pre
        }) == pre + photons_section(ps),
        photons_section(ps).len() == 0 <==> ps.len() == 0,
{
    let l = "  Root --> Photons[Photons]\n"@;
    if ps.len() > 0 {
        lemma_photons_acc(pre + l, ps);
        lemma_photons_acc(l, ps);
        reveal_strlit("  Root --> Photons[Photons]\n");
        assert(pre + l + mm_photons(Seq::empty(), ps) =~= pre + (l + mm_photons(Seq::empty(), ps)));
    } else {
        assert(pre + Seq::<char>::empty() =~= pre);
    }
}

/// Law: the diagram is its head line and root node, then the branches of
/// the constants, enums, frames and photons in this order; each branch
/// starts with its `Root -->` line and is there exactly when its list is
/// not empty.
pub proof fn law_mermaid_sections(ast: AstModel)
    ensures
        mermaid(ast) == "graph TD\n"@ + "  Root[Package: "@ + ast.package + "]\n"@
            + consts_section(ast.consts) + enums_section(ast.enums) + frames_section(ast.frames)
            + photons_section(ast.synqs),
        consts_section(ast.consts).len() == 0 <==> ast.consts.len() == 0,
        enums_section(ast.enums).len() == 0 <==> ast.enums.len() == 0,
        frames_section(ast.frames).len() == 0 <==> ast.frames.len() == 0,
        photons_section(ast.synqs).len() == 0 <==> ast.synqs.len() == 0,
{
    let head = "graph TD\n"@ + "  Root[Package: "@ + ast.package + "]\n"@;
    lemma_consts_section(head, ast.consts);
    let a = head + consts_section(ast.consts);
    lemma_enums_section(a, ast.enums);
    let b = a + enums_section(ast.enums);
    lemma_frames_section(b, ast.frames);
    let c = b + frames_section(ast.frames);
    lemma_photons_section(c, ast.synqs);
}

/// A field as the diagram shows it: hint, name and type.
pub open spec fn shown_field(fd: FieldModel) -> FieldModel {
    FieldModel { hint: fd.hint, typ: fd.typ, name: fd.name, reservations: None }
}

/// A frame as the diagram shows it: its name and its fields.
pub open spec fn shown_frame(f: FrameModel) -> FrameModel {
    FrameModel {
        name: f.name,
        attrs: Seq::empty(),
        fields: f.fields.map_values(|fd: FieldModel| shown_field(fd)),
        reservations: Seq::empty(),
    }
}

/// A message as the diagram shows it: name, request and response.
pub open spec fn shown_message(m: MessageModel) -> MessageModel {
    MessageModel { name: m.name, req: m.req, res: m.res, body: None }
}

/// A photon as the diagram shows it: its name and its messages.
pub open spec fn shown_photon(p: PhotonModel) -> PhotonModel {
    PhotonModel {
        name: p.name,
        attrs: Seq::empty(),
        messages: p.messages.map_values(|m: MessageModel| shown_message(m)),
    }
}

/// The part of a tree that the diagram shows: the package, constants,
/// enums, frames and photons as above; no imports, options, attributes,
/// reservations or message bodies.
pub open spec fn shown_part(ast: AstModel) -> AstModel {
    AstModel {
        package: ast.package,
        import: Seq::empty(),
        options: Seq::empty(),
        consts: ast.consts,
        enums: ast.enums,
        frames: ast.frames.map_values(|f: FrameModel| shown_frame(f)),
        synqs: ast.synqs.map_values(|p: PhotonModel| shown_photon(p)),
    }
}

proof fn lemma_fields_shown(acc: Seq<char>, f: Seq<char>, fds: Seq<FieldModel>)
    ensures
        mm_fields(acc, f, fds) == mm_fields(acc, f, fds.map_values(|fd: FieldModel| shown_field(fd))),
    decreases fds.len(),
{
    let m = fds.map_values(|fd: FieldModel| shown_field(fd));
    if fds.len() > 0 {
        lemma_fields_shown(acc, f, fds.drop_last());
        assert(m.drop_last() =~= fds.drop_last().map_values(|fd: FieldModel| shown_field(fd)));
        assert(m.last() == shown_field(fds.last()));
    } else {
        assert(m.len() == 0);
    }
}

proof fn lemma_frames_shown(acc: Seq<char>, fs: Seq<FrameModel>)
    ensures
        mm_frames(acc, fs) == mm_frames(acc, fs.map_values(|f: FrameModel| shown_frame(f))),
    decreases fs.len(),
{
    let m = fs.map_values(|f: FrameModel| shown_frame(f));
    if fs.len() > 0 {
        lemma_frames_shown(acc, fs.drop_last());
        assert(m.drop_last() =~= fs.drop_last().map_values(|f: FrameModel| shown_frame(f)));
        assert(m.last() == shown_frame(fs.last()));
        let f = fs.last();
        let x = mm_frames(acc, fs.drop_last());
        lemma_fields_shown(
            x + "  Frames --> F_"@ + f.name + "[Frame: "@ + f.name + "]\n"@,
            f.name,
            f.fields,
        );
    } else {
        assert(m.len() == 0);
    }
}

proof fn lemma_messages_shown(acc: Seq<char>, p: Seq<char>, ms: Seq<MessageModel>)
    ensures
        mm_messages(acc, p, ms) == mm_messages(
            acc,
            p,
            ms.map_values(|m: MessageModel| shown_message(m)),
        ),
    decreases ms.len(),
{
    let m = ms.map_values(|m: MessageModel| shown_message(m));
    if ms.len() > 0 {
        lemma_messages_shown(acc, p, ms.drop_last());
        assert(m.drop_last() =~= ms.drop_last().map_values(|m: MessageModel| shown_message(m)));
        assert(m.last() == shown_message(ms.last()));
    } else {
        assert(m.len() == 0);
    }
}

proof fn lemma_photons_shown(acc: Seq<char>, ps: Seq<PhotonModel>)
    ensures
        mm_photons(acc, ps) == mm_photons(acc, ps.map_values(|p: PhotonModel| shown_photon(p))),
    decreases ps.len(),
{
    let m = ps.map_values(|p: PhotonModel| shown_photon(p));
    if ps.len() > 0 {
        lemma_photons_shown(acc, ps.drop_last());
        assert(m.drop_last() =~= ps.drop_last().map_values(|p: PhotonModel| shown_photon(p)));
        assert(m.last() == shown_photon(ps.last()));
        let p = ps.last();
        let x = mm_photons(acc, ps.drop_last());
        lemma_messages_shown(
            x + "  Photons --> P_"@ + p.name + "[Photon: "@ + p.name + "]\n"@,
            p.name,
            p.messages,
        );
    } else {
        assert(m.len() == 0);
    }
}

proof fn lemma_mermaid_shown(ast: AstModel)
    ensures
        mermaid(ast) == mermaid(shown_part(ast)),
{
    let sp = shown_part(ast);
    let head = "graph TD\n"@ + "  Root[Package: "@ + ast.package + "]\n"@;
    let a = if ast.consts.len() > 0 {
        mm_consts(head + "  Root --> Consts[Constants]\n"@, ast.consts)
    } else {
        head
    };
    let b = if ast.enums.len() > 0 {
        mm_enums(a + "  Root --> Enums[Enums]\n"@, ast.enums)
    } else {
        a
    };
    lemma_frames_shown(b + "  Root --> Frames[Frames]\n"@, ast.frames);
    assert(sp.frames.len() == ast.frames.len());
    let c = mermaid_through_frames(ast.package, ast.consts, ast.enums, ast.frames);
    assert(mermaid_through_frames(sp.package, sp.consts, sp.enums, sp.frames) == c);
    lemma_photons_shown(c + "  Root --> Photons[Photons]\n"@, ast.synqs);
    assert(sp.synqs.len() == ast.synqs.len());
}

/// Law: the diagram shows only the package, the constants, the enums, the
/// frames with their fields' hints, names and types, and the photons with
/// their messages' names, requests and responses: trees that agree on these
/// have the same diagram, whatever their imports, options, attributes,
/// reservations and message bodies.
pub proof fn law_mermaid_ignores_the_rest(a1: AstModel, a2: AstModel)
    requires
        shown_part(a1) == shown_part(a2),
    ensures
        mermaid(a1) == mermaid(a2),
{
    lemma_mermaid_shown(a1);
    lemma_mermaid_shown(a2);
}

/// The number of line feeds in a text.
pub open spec fn line_feeds(s: Seq<char>) -> int
    decreases s.len(),
{
    if s.len() == 0 {
        0
    } else {
        line_feeds(s.drop_last()) + if s.last() == '\n' {
            1int
        } else {
            0int
        }
    }
}

proof fn lemma_line_feeds_add(a: Seq<char>, b: Seq<char>)
    ensures
        line_feeds(a + b) == line_feeds(a) + line_feeds(b),
    decreases b.len(),
{
    if b.len() == 0 {
        assert(a + b =~= a);
    } else {
        lemma_line_feeds_add(a, b.drop_last());
        assert((a + b).drop_last() =~= a + b.drop_last());
    }
}

/// No line feed in the text.
pub open spec fn one_line(s: Seq<char>) -> bool {
    forall|i: int| 0 <= i < s.len() ==> s[i] != '\n'
}

pub open spec fn const_ok(c: ConstModel) -> bool {
    one_line(c.name) && one_line(c.value)
}

pub open spec fn enum_ok(e: EnumModel) -> bool {
    one_line(e.name) && forall|i: int| 0 <= i < e.consts.len() ==> const_ok(#[trigger] e.consts[i])
}

pub open spec fn field_ok(fd: FieldModel) -> bool {
    &&& one_line(fd.name)
    &&& one_line(fd.typ)
    &&& fd.hint matches Some(h) ==> one_line(h)
}

pub open spec fn frame_ok(f: FrameModel) -> bool {
    one_line(f.name) && forall|i: int| 0 <= i < f.fields.len() ==> field_ok(#[trigger] f.fields[i])
}

pub open spec fn message_ok(m: MessageModel) -> bool {
    one_line(m.name) && one_line(m.req) && one_line(m.res)
}

pub open spec fn photon_ok(p: PhotonModel) -> bool {
    one_line(p.name) && forall|i: int| 0 <= i < p.messages.len() ==> message_ok(
        #[trigger] p.messages[i],
    )
}

/// The texts that the diagram shows hold no line feed.
pub open spec fn shown_texts_on_one_line(ast: AstModel) -> bool {
    &&& one_line(ast.package)
    &&& forall|i: int| 0 <= i < ast.consts.len() ==> const_ok(#[trigger] ast.consts[i])
    &&& forall|i: int| 0 <= i < ast.enums.len() ==> enum_ok(#[trigger] ast.enums[i])
    &&& forall|i: int| 0 <= i < ast.frames.len() ==> frame_ok(#[trigger] ast.frames[i])
    &&& forall|i: int| 0 <= i < ast.synqs.len() ==> photon_ok(#[trigger] ast.synqs[i])
}

/// The lines of the enums' branch below its `Root -->` line: one per enum
/// and one per constant of it.
pub open spec fn enums_lines(es: Seq<EnumModel>) -> int
    decreases es.len(),
{
    if es.len() == 0 {
        0
    } else {
        enums_lines(es.drop_last()) + 1 + es.last().consts.len()
    }
}

/// The lines of the frames' branch below its `Root -->` line: one per
/// frame and one per field of it.
pub open spec fn frames_lines(fs: Seq<FrameModel>) -> int
    decreases fs.len(),
{
    if fs.len() == 0 {
        0
    } else {
        frames_lines(fs.drop_last()) + 1 + fs.last().fields.len()
    }
}

/// The lines of the photons' branch below its `Root -->` line: one per
/// photon and three per message of it.
pub open spec fn photons_lines(ps: Seq<PhotonModel>) -> int
    decreases ps.len(),
{
    if ps.len() == 0 {
        0
    } else {
        photons_lines(ps.drop_last()) + 1 + 3 * ps.last().messages.len()
    }
}

proof fn lemma_no_lf(s: Seq<char>)
    requires
        one_line(s),
    ensures
        line_feeds(s) == 0,
    decreases s.len(),
{
    if s.len() > 0 {
        assert(one_line(s.drop_last())) by {
            assert forall|i: int| 0 <= i < s.drop_last().len() implies s.drop_last()[i] != '\n' by {
                assert(s.drop_last()[i] == s[i]);
            }
        }
        lemma_no_lf(s.drop_last());
        assert(s[s.len() - 1] != '\n');
    }
}

proof fn lemma_lit_0()
    ensures
        line_feeds("  Consts --> C_"@) == 0,
{
    reveal_strlit("  Consts --> C_");
    reveal_with_fuel(line_feeds, 17);
}

proof fn lemma_lit_1()
    ensures
        line_feeds("["@) == 0,
{
    reveal_strlit("[");
    reveal_with_fuel(line_feeds, 3);
}

proof fn lemma_lit_2()
    ensures
        line_feeds(": "@) == 0,
{
    reveal_strlit(": ");
    reveal_with_fuel(line_feeds, 4);
}

proof fn lemma_lit_3()
    ensures
        line_feeds("]\n"@) == 1,
{
    reveal_strlit("]\n");
    reveal_with_fuel(line_feeds, 4);
}

proof fn lemma_lit_4()
    ensures
        line_feeds("  E_"@) == 0,
{
    reveal_strlit("  E_");
    reveal_with_fuel(line_feeds, 6);
}

proof fn lemma_lit_5()
    ensures
        line_feeds(" --> EC_"@) == 0,
{
    reveal_strlit(" --> EC_");
    reveal_with_fuel(line_feeds, 10);
}

proof fn lemma_lit_6()
    ensures
        line_feeds("_"@) == 0,
{
    reveal_strlit("_");
    reveal_with_fuel(line_feeds, 3);
}

proof fn lemma_lit_7()
    ensures
        line_feeds("  Enums --> E_"@) == 0,
{
    reveal_strlit("  Enums --> E_");
    reveal_with_fuel(line_feeds, 16);
}

proof fn lemma_lit_8()
    ensures
        line_feeds("[Enum: "@) == 0,
{
    reveal_strlit("[Enum: ");
    reveal_with_fuel(line_feeds, 9);
}

proof fn lemma_lit_9()
    ensures
        line_feeds("  Frames --> F_"@) == 0,
{
    reveal_strlit("  Frames --> F_");
    reveal_with_fuel(line_feeds, 17);
}

proof fn lemma_lit_10()
    ensures
        line_feeds("[Frame: "@) == 0,
{
    reveal_strlit("[Frame: ");
    reveal_with_fuel(line_feeds, 10);
}

proof fn lemma_lit_11()
    ensures
        line_feeds("  Photons --> P_"@) == 0,
{
    reveal_strlit("  Photons --> P_");
    reveal_with_fuel(line_feeds, 18);
}

proof fn lemma_lit_12()
    ensures
        line_feeds("[Photon: "@) == 0,
{
    reveal_strlit("[Photon: ");
    reveal_with_fuel(line_feeds, 11);
}

proof fn lemma_lit_13()
    ensures
        line_feeds("graph TD\n"@) == 1,
{
    reveal_strlit("graph TD\n");
    reveal_with_fuel(line_feeds, 11);
}

proof fn lemma_lit_14()
    ensures
        line_feeds("  Root[Package: "@) == 0,
{
    reveal_strlit("  Root[Package: ");
    reveal_with_fuel(line_feeds, 18);
}

proof fn lemma_lit_15()
    ensures
        line_feeds("  P_"@) == 0,
{
    reveal_strlit("  P_");
    reveal_with_fuel(line_feeds, 6);
}

proof fn lemma_lit_16()
    ensures
        line_feeds(" --> PM_"@) == 0,
{
    reveal_strlit(" --> PM_");
    reveal_with_fuel(line_feeds, 10);
}

proof fn lemma_lit_17()
    ensures
        line_feeds("[Message: "@) == 0,
{
    reveal_strlit("[Message: ");
    reveal_with_fuel(line_feeds, 12);
}

proof fn lemma_lit_18()
    ensures
        line_feeds("  PM_"@) == 0,
{
    reveal_strlit("  PM_");
    reveal_with_fuel(line_feeds, 7);
}

proof fn lemma_lit_19()
    ensures
        line_feeds(" --> PMR_"@) == 0,
{
    reveal_strlit(" --> PMR_");
    reveal_with_fuel(line_feeds, 11);
}

proof fn lemma_lit_20()
    ensures
        line_feeds("_Q[Req: "@) == 0,
{
    reveal_strlit("_Q[Req: ");
    reveal_with_fuel(line_feeds, 10);
}

proof fn lemma_lit_21()
    ensures
        line_feeds("_S[Res: "@) == 0,
{
    reveal_strlit("_S[Res: ");
    reveal_with_fuel(line_feeds, 10);
}

proof fn lemma_lit_22()
    ensures
        line_feeds("  F_"@) == 0,
{
    reveal_strlit("  F_");
    reveal_with_fuel(line_feeds, 6);
}

proof fn lemma_lit_23()
    ensures
        line_feeds(" --> FF_"@) == 0,
{
    reveal_strlit(" --> FF_");
    reveal_with_fuel(line_feeds, 10);
}

proof fn lemma_lit_24()
    ensures
        line_feeds("[\""@) == 0,
{
    reveal_strlit("[\"");
    reveal_with_fuel(line_feeds, 4);
}

proof fn lemma_lit_25()
    ensures
        line_feeds("\"]\n"@) == 1,
{
    reveal_strlit("\"]\n");
    reveal_with_fuel(line_feeds, 5);
}

proof fn lemma_lit_26()
    ensures
        line_feeds(" "@) == 0,
{
    reveal_strlit(" ");
    reveal_with_fuel(line_feeds, 3);
}

proof fn lemma_lit_27()
    ensures
        line_feeds("  Root --> Consts[Constants]\n"@) == 1,
{
    reveal_strlit("  Root --> Consts[Constants]\n");
    reveal_with_fuel(line_feeds, 31);
}

proof fn lemma_lit_28()
    ensures
        line_feeds("  Root --> Enums[Enums]\n"@) == 1,
{
    reveal_strlit("  Root --> Enums[Enums]\n");
    reveal_with_fuel(line_feeds, 26);
}

proof fn lemma_lit_29()
    ensures
        line_feeds("  Root --> Frames[Frames]\n"@) == 1,
{
    reveal_strlit("  Root --> Frames[Frames]\n");
    reveal_with_fuel(line_feeds, 28);
}

proof fn lemma_lit_30()
    ensures
        line_feeds("  Root --> Photons[Photons]\n"@) == 1,
{
    reveal_strlit("  Root --> Photons[Photons]\n");
    reveal_with_fuel(line_feeds, 30);
}

proof fn lemma_lf_const(acc: Seq<char>, c: ConstModel)
    requires
        const_ok(c),

    ensures
        line_feeds(mm_const(acc, c)) == line_feeds(acc) + 1,
{
    lemma_lit_0();
    let x1 = acc + "  Consts --> C_"@;
    lemma_line_feeds_add(acc, "  Consts --> C_"@);
    lemma_no_lf(c.name);
    let x2 = x1 + c.name;
    lemma_line_feeds_add(x1, c.name);
    lemma_lit_1();
    let x3 = x2 + "["@;
    lemma_line_feeds_add(x2, "["@);
    lemma_no_lf(c.name);
    let x4 = x3 + c.name;
    lemma_line_feeds_add(x3, c.name);
    lemma_lit_2();
    let x5 = x4 + ": "@;
    lemma_line_feeds_add(x4, ": "@);
    lemma_no_lf(c.value);
    let x6 = x5 + c.value;
    lemma_line_feeds_add(x5, c.value);
    lemma_lit_3();
    let x7 = x6 + "]\n"@;
    lemma_line_feeds_add(x6, "]\n"@);
    assert(mm_const(acc, c) == x7);
}
proof fn lemma_lf_enum_const(acc: Seq<char>, e: Seq<char>, c: ConstModel)
    requires
        const_ok(c),
        one_line(e),

    ensures
        line_feeds(mm_enum_const(acc, e, c)) == line_feeds(acc) + 1,
{
    lemma_lit_4();
    let x1 = acc + "  E_"@;
    lemma_line_feeds_add(acc, "  E_"@);
    lemma_no_lf(e);
    let x2 = x1 + e;
    lemma_line_feeds_add(x1, e);
    lemma_lit_5();
    let x3 = x2 + " --> EC_"@;
    lemma_line_feeds_add(x2, " --> EC_"@);
    lemma_no_lf(e);
    let x4 = x3 + e;
    lemma_line_feeds_add(x3, e);
    lemma_lit_6();
    let x5 = x4 + "_"@;
    lemma_line_feeds_add(x4, "_"@);
    lemma_no_lf(c.name);
    let x6 = x5 + c.name;
    lemma_line_feeds_add(x5, c.name);
    lemma_lit_1();
    let x7 = x6 + "["@;
    lemma_line_feeds_add(x6, "["@);
    lemma_no_lf(c.name);
    let x8 = x7 + c.name;
    lemma_line_feeds_add(x7, c.name);
    lemma_lit_2();
    let x9 = x8 + ": "@;
    lemma_line_feeds_add(x8, ": "@);
    lemma_no_lf(c.value);
    let x10 = x9 + c.value;
    lemma_line_feeds_add(x9, c.value);
    lemma_lit_3();
    let x11 = x10 + "]\n"@;
    lemma_line_feeds_add(x10, "]\n"@);
    assert(mm_enum_const(acc, e, c) == x11);
}
proof fn lemma_lf_enum_head(acc: Seq<char>, e: EnumModel)
    requires
        one_line(e.name),

    ensures
        line_feeds(acc + "  Enums --> E_"@ + e.name + "[Enum: "@ + e.name + "]\n"@) == line_feeds(acc) + 1,
{
    lemma_lit_7();
    let x1 = acc + "  Enums --> E_"@;
    lemma_line_feeds_add(acc, "  Enums --> E_"@);
    lemma_no_lf(e.name);
    let x2 = x1 + e.name;
    lemma_line_feeds_add(x1, e.name);
    lemma_lit_8();
    let x3 = x2 + "[Enum: "@;
    lemma_line_feeds_add(x2, "[Enum: "@);
    lemma_no_lf(e.name);
    let x4 = x3 + e.name;
    lemma_line_feeds_add(x3, e.name);
    lemma_lit_3();
    let x5 = x4 + "]\n"@;
    lemma_line_feeds_add(x4, "]\n"@);
    assert(acc + "  Enums --> E_"@ + e.name + "[Enum: "@ + e.name + "]\n"@ == x5);
}
proof fn lemma_lf_frame_head(acc: Seq<char>, f: FrameModel)
    requires
        one_line(f.name),

    ensures
        line_feeds(acc + "  Frames --> F_"@ + f.name + "[Frame: "@ + f.name + "]\n"@) == line_feeds(acc) + 1,
{
    lemma_lit_9();
    let x1 = acc + "  Frames --> F_"@;
    lemma_line_feeds_add(acc, "  Frames --> F_"@);
    lemma_no_lf(f.name);
    let x2 = x1 + f.name;
    lemma_line_feeds_add(x1, f.name);
    lemma_lit_10();
    let x3 = x2 + "[Frame: "@;
    lemma_line_feeds_add(x2, "[Frame: "@);
    lemma_no_lf(f.name);
    let x4 = x3 + f.name;
    lemma_line_feeds_add(x3, f.name);
    lemma_lit_3();
    let x5 = x4 + "]\n"@;
    lemma_line_feeds_add(x4, "]\n"@);
    assert(acc + "  Frames --> F_"@ + f.name + "[Frame: "@ + f.name + "]\n"@ == x5);
}
proof fn lemma_lf_photon_head(acc: Seq<char>, p: PhotonModel)
    requires
        one_line(p.name),

    ensures
        line_feeds(acc + "  Photons --> P_"@ + p.name + "[Photon: "@ + p.name + "]\n"@) == line_feeds(acc) + 1,
{
    lemma_lit_11();
    let x1 = acc + "  Photons --> P_"@;
    lemma_line_feeds_add(acc, "  Photons --> P_"@);
    lemma_no_lf(p.name);
    let x2 = x1 + p.name;
    lemma_line_feeds_add(x1, p.name);
    lemma_lit_12();
    let x3 = x2 + "[Photon: "@;
    lemma_line_feeds_add(x2, "[Photon: "@);
    lemma_no_lf(p.name);
    let x4 = x3 + p.name;
    lemma_line_feeds_add(x3, p.name);
    lemma_lit_3();
    let x5 = x4 + "]\n"@;
    lemma_line_feeds_add(x4, "]\n"@);
    assert(acc + "  Photons --> P_"@ + p.name + "[Photon: "@ + p.name + "]\n"@ == x5);
}
proof fn lemma_lf_head(acc: Seq<char>, package: Seq<char>)
    requires
        acc.len() == 0,
        one_line(package),

    ensures
        line_feeds(acc + "graph TD\n"@ + "  Root[Package: "@ + package + "]\n"@) == 2,
{
    lemma_lit_13();
    let x1 = acc + "graph TD\n"@;
    lemma_line_feeds_add(acc, "graph TD\n"@);
    lemma_lit_14();
    let x2 = x1 + "  Root[Package: "@;
    lemma_line_feeds_add(x1, "  Root[Package: "@);
    lemma_no_lf(package);
    let x3 = x2 + package;
    lemma_line_feeds_add(x2, package);
    lemma_lit_3();
    let x4 = x3 + "]\n"@;
    lemma_line_feeds_add(x3, "]\n"@);
    assert(acc + "graph TD\n"@ + "  Root[Package: "@ + package + "]\n"@ == x4);
}
proof fn lemma_lf_message(acc: Seq<char>, p: Seq<char>, m: MessageModel)
    requires
        message_ok(m),
        one_line(p),

    ensures
        line_feeds(mm_message(acc, p, m)) == line_feeds(acc) + 3,
{
    lemma_lit_15();
    let x1 = acc + "  P_"@;
    lemma_line_feeds_add(acc, "  P_"@);
    lemma_no_lf(p);
    let x2 = x1 + p;
    lemma_line_feeds_add(x1, p);
    lemma_lit_16();
    let x3 = x2 + " --> PM_"@;
    lemma_line_feeds_add(x2, " --> PM_"@);
    lemma_no_lf(p);
    let x4 = x3 + p;
    lemma_line_feeds_add(x3, p);
    lemma_lit_6();
    let x5 = x4 + "_"@;
    lemma_line_feeds_add(x4, "_"@);
    lemma_no_lf(m.name);
    let x6 = x5 + m.name;
    lemma_line_feeds_add(x5, m.name);
    lemma_lit_17();
    let x7 = x6 + "[Message: "@;
    lemma_line_feeds_add(x6, "[Message: "@);
    lemma_no_lf(m.name);
    let x8 = x7 + m.name;
    lemma_line_feeds_add(x7, m.name);
    lemma_lit_3();
    let x9 = x8 + "]\n"@;
    lemma_line_feeds_add(x8, "]\n"@);
    lemma_lit_18();
    let x10 = x9 + "  PM_"@;
    lemma_line_feeds_add(x9, "  PM_"@);
    lemma_no_lf(p);
    let x11 = x10 + p;
    lemma_line_feeds_add(x10, p);
    lemma_lit_6();
    let x12 = x11 + "_"@;
    lemma_line_feeds_add(x11, "_"@);
    lemma_no_lf(m.name);
    let x13 = x12 + m.name;
    lemma_line_feeds_add(x12, m.name);
    lemma_lit_19();
    let x14 = x13 + " --> PMR_"@;
    lemma_line_feeds_add(x13, " --> PMR_"@);
    lemma_no_lf(p);
    let x15 = x14 + p;
    lemma_line_feeds_add(x14, p);
    lemma_lit_6();
    let x16 = x15 + "_"@;
    lemma_line_feeds_add(x15, "_"@);
    lemma_no_lf(m.name);
    let x17 = x16 + m.name;
    lemma_line_feeds_add(x16, m.name);
    lemma_lit_20();
    let x18 = x17 + "_Q[Req: "@;
    lemma_line_feeds_add(x17, "_Q[Req: "@);
    lemma_no_lf(m.req);
    let x19 = x18 + m.req;
    lemma_line_feeds_add(x18, m.req);
    lemma_lit_3();
    let x20 = x19 + "]\n"@;
    lemma_line_feeds_add(x19, "]\n"@);
    lemma_lit_18();
    let x21 = x20 + "  PM_"@;
    lemma_line_feeds_add(x20, "  PM_"@);
    lemma_no_lf(p);
    let x22 = x21 + p;
    lemma_line_feeds_add(x21, p);
    lemma_lit_6();
    let x23 = x22 + "_"@;
    lemma_line_feeds_add(x22, "_"@);
    lemma_no_lf(m.name);
    let x24 = x23 + m.name;
    lemma_line_feeds_add(x23, m.name);
    lemma_lit_19();
    let x25 = x24 + " --> PMR_"@;
    lemma_line_feeds_add(x24, " --> PMR_"@);
    lemma_no_lf(p);
    let x26 = x25 + p;
    lemma_line_feeds_add(x25, p);
    lemma_lit_6();
    let x27 = x26 + "_"@;
    lemma_line_feeds_add(x26, "_"@);
    lemma_no_lf(m.name);
    let x28 = x27 + m.name;
    lemma_line_feeds_add(x27, m.name);
    lemma_lit_21();
    let x29 = x28 + "_S[Res: "@;
    lemma_line_feeds_add(x28, "_S[Res: "@);
    lemma_no_lf(m.res);
    let x30 = x29 + m.res;
    lemma_line_feeds_add(x29, m.res);
    lemma_lit_3();
    let x31 = x30 + "]\n"@;
    lemma_line_feeds_add(x30, "]\n"@);
    assert(mm_message(acc, p, m) == x31);
}
proof fn lemma_lf_field(acc: Seq<char>, f: Seq<char>, fd: FieldModel)
    requires
        field_ok(fd),
        one_line(f),
    ensures
        line_feeds(mm_field(acc, f, fd)) == line_feeds(acc) + 1,
{
    lemma_lit_22();
    let x1 = acc + "  F_"@;
    lemma_line_feeds_add(acc, "  F_"@);
    lemma_no_lf(f);
    let x2 = x1 + f;
    lemma_line_feeds_add(x1, f);
    lemma_lit_23();
    let x3 = x2 + " --> FF_"@;
    lemma_line_feeds_add(x2, " --> FF_"@);
    lemma_no_lf(f);
    let x4 = x3 + f;
    lemma_line_feeds_add(x3, f);
    lemma_lit_6();
    let x5 = x4 + "_"@;
    lemma_line_feeds_add(x4, "_"@);
    lemma_no_lf(fd.name);
    let x6 = x5 + fd.name;
    lemma_line_feeds_add(x5, fd.name);
    lemma_lit_24();
    let x7 = x6 + "[\""@;
    lemma_line_feeds_add(x6, "[\""@);
    let w = with_hint(x7, fd.hint);
    match fd.hint {
        Some(h) => {
            lemma_no_lf(h);
            lemma_line_feeds_add(x7, h);
            lemma_lit_26();
            lemma_line_feeds_add(x7 + h, " "@);
        },
        None => {},
    }
    lemma_no_lf(fd.name);
    let z1 = w + fd.name;
    lemma_line_feeds_add(w, fd.name);
    lemma_lit_2();
    let z2 = z1 + ": "@;
    lemma_line_feeds_add(z1, ": "@);
    lemma_no_lf(fd.typ);
    let z3 = z2 + fd.typ;
    lemma_line_feeds_add(z2, fd.typ);
    lemma_lit_25();
    let z4 = z3 + "\"]\n"@;
    lemma_line_feeds_add(z3, "\"]\n"@);
    assert(mm_field(acc, f, fd) == z4);
}

proof fn lemma_lf_consts(acc: Seq<char>, cs: Seq<ConstModel>)
    requires
        forall|i: int| 0 <= i < cs.len() ==> const_ok(#[trigger] cs[i]),
    ensures
        line_feeds(mm_consts(acc, cs)) == line_feeds(acc) + cs.len(),
    decreases cs.len(),
{
    if cs.len() > 0 {
        assert(const_ok(cs[cs.len() - 1]));
        lemma_lf_consts(acc, cs.drop_last());
        lemma_lf_const(mm_consts(acc, cs.drop_last()), cs.last());
    }
}

proof fn lemma_lf_enum_consts(acc: Seq<char>, e: Seq<char>, cs: Seq<ConstModel>)
    requires
        one_line(e),
        forall|i: int| 0 <= i < cs.len() ==> const_ok(#[trigger] cs[i]),
    ensures
        line_feeds(mm_enum_consts(acc, e, cs)) == line_feeds(acc) + cs.len(),
    decreases cs.len(),
{
    if cs.len() > 0 {
        assert(const_ok(cs[cs.len() - 1]));
        lemma_lf_enum_consts(acc, e, cs.drop_last());
        lemma_lf_enum_const(mm_enum_consts(acc, e, cs.drop_last()), e, cs.last());
    }
}

proof fn lemma_lf_enums(acc: Seq<char>, es: Seq<EnumModel>)
    requires
        forall|i: int| 0 <= i < es.len() ==> enum_ok(#[trigger] es[i]),
    ensures
        line_feeds(mm_enums(acc, es)) == line_feeds(acc) + enums_lines(es),
    decreases es.len(),
{
    if es.len() > 0 {
        let e = es.last();
        assert(enum_ok(es[es.len() - 1]));
        lemma_lf_enums(acc, es.drop_last());
        let x = mm_enums(acc, es.drop_last());
        lemma_lf_enum_head(x, e);
        lemma_lf_enum_consts(x + "  Enums --> E_"@ + e.name + "[Enum: "@ + e.name + "]\n"@, e.name, e.consts);
    }
}

proof fn lemma_lf_fields(acc: Seq<char>, f: Seq<char>, fds: Seq<FieldModel>)
    requires
        one_line(f),
        forall|i: int| 0 <= i < fds.len() ==> field_ok(#[trigger] fds[i]),
    ensures
        line_feeds(mm_fields(acc, f, fds)) == line_feeds(acc) + fds.len(),
    decreases fds.len(),
{
    if fds.len() > 0 {
        assert(field_ok(fds[fds.len() - 1]));
        lemma_lf_fields(acc, f, fds.drop_last());
        lemma_lf_field(mm_fields(acc, f, fds.drop_last()), f, fds.last());
    }
}

proof fn lemma_lf_frames(acc: Seq<char>, fs: Seq<FrameModel>)
    requires
        forall|i: int| 0 <= i < fs.len() ==> frame_ok(#[trigger] fs[i]),
    ensures
        line_feeds(mm_frames(acc, fs)) == line_feeds(acc) + frames_lines(fs),
    decreases fs.len(),
{
    if fs.len() > 0 {
        let f = fs.last();
        assert(frame_ok(fs[fs.len() - 1]));
        lemma_lf_frames(acc, fs.drop_last());
        let x = mm_frames(acc, fs.drop_last());
        lemma_lf_frame_head(x, f);
        lemma_lf_fields(x + "  Frames --> F_"@ + f.name + "[Frame: "@ + f.name + "]\n"@, f.name, f.fields);
    }
}

proof fn lemma_lf_messages(acc: Seq<char>, p: Seq<char>, ms: Seq<MessageModel>)
    requires
        one_line(p),
        forall|i: int| 0 <= i < ms.len() ==> message_ok(#[trigger] ms[i]),
    ensures
        line_feeds(mm_messages(acc, p, ms)) == line_feeds(acc) + 3 * ms.len(),
    decreases ms.len(),
{
    if ms.len() > 0 {
        assert(message_ok(ms[ms.len() - 1]));
        lemma_lf_messages(acc, p, ms.drop_last());
        lemma_lf_message(mm_messages(acc, p, ms.drop_last()), p, ms.last());
    }
}

proof fn lemma_lf_photons(acc: Seq<char>, ps: Seq<PhotonModel>)
    requires
        forall|i: int| 0 <= i < ps.len() ==> photon_ok(#[trigger] ps[i]),
    ensures
        line_feeds(mm_photons(acc, ps)) == line_feeds(acc) + photons_lines(ps),
    decreases ps.len(),
{
    if ps.len() > 0 {
        let p = ps.last();
        assert(photon_ok(ps[ps.len() - 1]));
        lemma_lf_photons(acc, ps.drop_last());
        let x = mm_photons(acc, ps.drop_last());
        lemma_lf_photon_head(x, p);
        lemma_lf_messages(x + "  Photons --> P_"@ + p.name + "[Photon: "@ + p.name + "]\n"@, p.name, p.messages);
    }
}

/// Law: where the texts it shows hold no line feed, the diagram has two
/// lines for its head and root, then, for each branch that is there, one
/// `Root -->` line and: a line per constant; a line per enum and per
/// constant of it; a line per frame and per field of it; a line per photon
/// and three per message of it.
pub proof fn law_mermaid_line_count(ast: AstModel)
    requires
        shown_texts_on_one_line(ast),
    ensures
        line_feeds(mermaid(ast)) == 2 + (if ast.consts.len() > 0 {
            1 + ast.consts.len()
        } else {
            0
        }) + (if ast.enums.len() > 0 {
            1 + enums_lines(ast.enums)
        } else {
            0
        }) + (if ast.frames.len() > 0 {
            1 + frames_lines(ast.frames)
        } else {
            0
        }) + (if ast.synqs.len() > 0 {
            1 + photons_lines(ast.synqs)
        } else {
            0
        }),
{
    let e = Seq::<char>::empty();
    lemma_lf_head(e, ast.package);
    let head = "graph TD\n"@ + "  Root[Package: "@ + ast.package + "]\n"@;
    assert(e + "graph TD\n"@ + "  Root[Package: "@ + ast.package + "]\n"@ == head) by {
        assert(e + "graph TD\n"@ =~= "graph TD\n"@);
    }
    let cl = "  Root --> Consts[Constants]\n"@;
    let el = "  Root --> Enums[Enums]\n"@;
    let fl = "  Root --> Frames[Frames]\n"@;
    let pl = "  Root --> Photons[Photons]\n"@;
    lemma_lit_27();
    lemma_lit_28();
    lemma_lit_29();
    lemma_lit_30();
    let a = if ast.consts.len() > 0 {
        mm_consts(head + cl, ast.consts)
    } else {
        head
    };
    if ast.consts.len() > 0 {
        lemma_line_feeds_add(head, cl);
        lemma_lf_consts(head + cl, ast.consts);
    }
    let b = if ast.enums.len() > 0 {
        mm_enums(a + el, ast.enums)
    } else {
        a
    };
    if ast.enums.len() > 0 {
        lemma_line_feeds_add(a, el);
        lemma_lf_enums(a + el, ast.enums);
    }
    let c = if ast.frames.len() > 0 {
        mm_frames(b + fl, ast.frames)
    } else {
        b
    };
    if ast.frames.len() > 0 {
        lemma_line_feeds_add(b, fl);
        lemma_lf_frames(b + fl, ast.frames);
    }
    assert(mermaid_through_frames(ast.package, ast.consts, ast.enums, ast.frames) == c);
    if ast.synqs.len() > 0 {
        lemma_line_feeds_add(c, pl);
        lemma_lf_photons(c + pl, ast.synqs);
    }
}

/// A text that is empty or ends with a line feed has as many lines (in the
/// sense of `str::lines`) as line feeds.
pub proof fn lemma_lines_count(s: Seq<char>)
    requires
        s.len() == 0 || s.last() == '\n',
    ensures
        lines(s).len() == line_feeds(s),
    decreases s.len(),
{
    if s.len() > 0 {
        lemma_first_newline_bounds(s);
        lemma_first_newline_first(s);
        match first_newline(s) {
            None => {
                assert(s[s.len() - 1] == '\n');
            },
            Some(i) => {
                let t = s.skip(i + 1);
                let h = s.take(i);
                assert(s =~= h + seq!['\n'] + t);
                lemma_line_feeds_add(h + seq!['\n'], t);
                lemma_line_feeds_add(h, seq!['\n']);
                assert(one_line(h));
                lemma_no_lf(h);
                assert(seq!['\n'].drop_last() =~= Seq::<char>::empty());
                assert(line_feeds(Seq::<char>::empty()) == 0);
                assert(seq!['\n'].last() == '\n');
                assert(line_feeds(seq!['\n']) == 1);
                if t.len() > 0 {
                    assert(t.last() == s.last());
                }
                lemma_lines_count(t);
            },
        }
    }
}

/// A text that is not empty and ends with a line feed.
pub open spec fn ends_with_lf(s: Seq<char>) -> bool {
    s.len() > 0 && s.last() == '\n'
}

proof fn lemma_ends_add(x: Seq<char>, y: Seq<char>)
    requires
        ends_with_lf(y),
    ensures
        ends_with_lf(x + y),
{
    assert((x + y).last() == y.last());
}

proof fn lemma_lit_ends(x: Seq<char>)
    ensures
        ends_with_lf(x + "]\n"@),
        ends_with_lf(x + "\"]\n"@),
{
    reveal_strlit("]\n");
    reveal_strlit("\"]\n");
    lemma_ends_add(x, "]\n"@);
    lemma_ends_add(x, "\"]\n"@);
}

proof fn lemma_ends_consts(acc: Seq<char>, cs: Seq<ConstModel>)
    requires
        ends_with_lf(acc),
    ensures
        ends_with_lf(mm_consts(acc, cs)),
    decreases cs.len(),
{
    if cs.len() > 0 {
        let c = cs.last();
        let x = mm_consts(acc, cs.drop_last());
        lemma_lit_ends(x + "  Consts --> C_"@ + c.name + "["@ + c.name + ": "@ + c.value);
    }
}

proof fn lemma_ends_enum_consts(acc: Seq<char>, e: Seq<char>, cs: Seq<ConstModel>)
    requires
        ends_with_lf(acc),
    ensures
        ends_with_lf(mm_enum_consts(acc, e, cs)),
    decreases cs.len(),
{
    if cs.len() > 0 {
        let c = cs.last();
        let x = mm_enum_consts(acc, e, cs.drop_last());
        lemma_lit_ends(
            x + "  E_"@ + e + " --> EC_"@ + e + "_"@ + c.name + "["@ + c.name + ": "@ + c.value,
        );
    }
}

proof fn lemma_ends_enums(acc: Seq<char>, es: Seq<EnumModel>)
    requires
        ends_with_lf(acc),
    ensures
        ends_with_lf(mm_enums(acc, es)),
    decreases es.len(),
{
    if es.len() > 0 {
        let e = es.last();
        let x = mm_enums(acc, es.drop_last());
        lemma_lit_ends(x + "  Enums --> E_"@ + e.name + "[Enum: "@ + e.name);
        lemma_ends_enum_consts(
            x + "  Enums --> E_"@ + e.name + "[Enum: "@ + e.name + "]\n"@,
            e.name,
            e.consts,
        );
    }
}

proof fn lemma_ends_fields(acc: Seq<char>, f: Seq<char>, fds: Seq<FieldModel>)
    requires
        ends_with_lf(acc),
    ensures
        ends_with_lf(mm_fields(acc, f, fds)),
    decreases fds.len(),
{
    if fds.len() > 0 {
        let fd = fds.last();
        let x = mm_fields(acc, f, fds.drop_last());
        let y = x + "  F_"@ + f + " --> FF_"@ + f + "_"@ + fd.name + "[\""@;
        lemma_lit_ends(with_hint(y, fd.hint) + fd.name + ": "@ + fd.typ);
    }
}

proof fn lemma_ends_frames(acc: Seq<char>, fs: Seq<FrameModel>)
    requires
        ends_with_lf(acc),
    ensures
        ends_with_lf(mm_frames(acc, fs)),
    decreases fs.len(),
{
    if fs.len() > 0 {
        let f = fs.last();
        let x = mm_frames(acc, fs.drop_last());
        lemma_lit_ends(x + "  Frames --> F_"@ + f.name + "[Frame: "@ + f.name);
        lemma_ends_fields(
            x + "  Frames --> F_"@ + f.name + "[Frame: "@ + f.name + "]\n"@,
            f.name,
            f.fields,
        );
    }
}

proof fn lemma_ends_messages(acc: Seq<char>, p: Seq<char>, ms: Seq<MessageModel>)
    requires
        ends_with_lf(acc),
    ensures
        ends_with_lf(mm_messages(acc, p, ms)),
    decreases ms.len(),
{
    if ms.len() > 0 {
        let m = ms.last();
        let x = mm_messages(acc, p, ms.drop_last());
        lemma_lit_ends(
            x + "  P_"@ + p + " --> PM_"@ + p + "_"@ + m.name + "[Message: "@ + m.name + "]\n"@
                + "  PM_"@ + p + "_"@ + m.name + " --> PMR_"@ + p + "_"@ + m.name + "_Q[Req: "@
                + m.req + "]\n"@ + "  PM_"@ + p + "_"@ + m.name + " --> PMR_"@ + p + "_"@
                + m.name + "_S[Res: "@ + m.res,
        );
    }
}

proof fn lemma_ends_photons(acc: Seq<char>, ps: Seq<PhotonModel>)
    requires
        ends_with_lf(acc),
    ensures
        ends_with_lf(mm_photons(acc, ps)),
    decreases ps.len(),
{
    if ps.len() > 0 {
        let p = ps.last();
        let x = mm_photons(acc, ps.drop_last());
        lemma_lit_ends(x + "  Photons --> P_"@ + p.name + "[Photon: "@ + p.name);
        lemma_ends_messages(
            x + "  Photons --> P_"@ + p.name + "[Photon: "@ + p.name + "]\n"@,
            p.name,
            p.messages,
        );
    }
}

proof fn lemma_ends_lit(x: Seq<char>)
    ensures
        ends_with_lf(x + "  Root --> Consts[Constants]\n"@),
        ends_with_lf(x + "  Root --> Enums[Enums]\n"@),
        ends_with_lf(x + "  Root --> Frames[Frames]\n"@),
        ends_with_lf(x + "  Root --> Photons[Photons]\n"@),
{
    reveal_strlit("  Root --> Consts[Constants]\n");
    reveal_strlit("  Root --> Enums[Enums]\n");
    reveal_strlit("  Root --> Frames[Frames]\n");
    reveal_strlit("  Root --> Photons[Photons]\n");
    lemma_ends_add(x, "  Root --> Consts[Constants]\n"@);
    lemma_ends_add(x, "  Root --> Enums[Enums]\n"@);
    lemma_ends_add(x, "  Root --> Frames[Frames]\n"@);
    lemma_ends_add(x, "  Root --> Photons[Photons]\n"@);
}

/// The diagram ends with a line feed.
proof fn lemma_mermaid_ends(ast: AstModel)
    ensures
        ends_with_lf(mermaid(ast)),
{
    let head = "graph TD\n"@ + "  Root[Package: "@ + ast.package + "]\n"@;
    lemma_lit_ends("graph TD\n"@ + "  Root[Package: "@ + ast.package);
    lemma_ends_lit(head);
    lemma_ends_consts(head + "  Root --> Consts[Constants]\n"@, ast.consts);
    let a = if ast.consts.len() > 0 {
        mm_consts(head + "  Root --> Consts[Constants]\n"@, ast.consts)
    } else {
        head
    };
    lemma_ends_lit(a);
    lemma_ends_enums(a + "  Root --> Enums[Enums]\n"@, ast.enums);
    let b = if ast.enums.len() > 0 {
        mm_enums(a + "  Root --> Enums[Enums]\n"@, ast.enums)
    } else {
        a
    };
    lemma_ends_lit(b);
    lemma_ends_frames(b + "  Root --> Frames[Frames]\n"@, ast.frames);
    let c = mermaid_through_frames(ast.package, ast.consts, ast.enums, ast.frames);
    lemma_ends_lit(c);
    lemma_ends_photons(c + "  Root --> Photons[Photons]\n"@, ast.synqs);
}

/// Law: the diagram's lines, as `str::lines` splits them, are as many as
/// its line feeds; so, where the texts it shows hold no line feed, their
/// number is the one that [`law_mermaid_line_count`] gives.
pub proof fn law_mermaid_lines(ast: AstModel)
    ensures
        lines(mermaid(ast)).len() == line_feeds(mermaid(ast)),
{
    lemma_mermaid_ends(ast);
    lemma_lines_count(mermaid(ast));
}

} // verus!
