//! Text renderings of a syntax tree of the earlier parser: the same
//! Mermaid diagram as the current printer draws, and an outline in which
//! a message's block is listed token by token.
use crate::codec::parser::{
    Ast, AstModel, MessageDecl, MessageModel, OptModel, PhotonDecl, PhotonModel,
};
use crate::synq::ast::{
    AstModel as DiagramModel, MessageModel as DiagramMessage, PhotonModel as DiagramPhoton,
};
use crate::synq::ast_printer::{
    law_mermaid_shows_frames_and_fields as law_current_frames,
    law_mermaid_shows_photons_and_messages as law_current_photons, mermaid as current_mermaid,
    mermaid_head, mm_message_lines, mm_messages, mm_photons, outline_through_frames, pr_attrs,
    push_attrs, push_mm_message, render_head, contains, field_label,
};
use vstd::prelude::*;
use vstd::string::StringExecFns;

verus! {

/// Renders a syntax tree of the earlier parser as text.
pub struct AstPrinter;

/// A message as the diagram sees it: its block plays no part there.
pub open spec fn diagram_message(m: MessageModel) -> DiagramMessage {
    DiagramMessage { name: m.name, req: m.req, res: m.res, body: None }
}

/// A photon as the diagram sees it.
pub open spec fn diagram_photon(p: PhotonModel) -> DiagramPhoton {
    DiagramPhoton {
        name: p.name,
        attrs: p.attrs,
        messages: p.messages.map_values(|m: MessageModel| diagram_message(m)),
    }
}

/// The tree as the diagram sees it.
pub open spec fn diagram_view(ast: AstModel) -> DiagramModel {
    DiagramModel {
        package: ast.package,
        import: ast.import,
        options: ast.options,
        consts: ast.consts,
        enums: ast.enums,
        frames: ast.frames,
        synqs: ast.synqs.map_values(|p: PhotonModel| diagram_photon(p)),
    }
}

/// The Mermaid flowchart of a syntax tree: the one the current printer
/// draws for the same declarations.
pub open spec fn mermaid(ast: AstModel) -> Seq<char> {
    current_mermaid(diagram_view(ast))
}

impl AstPrinter {
    /// The Mermaid flowchart of `ast` (see [`mermaid`]).
    pub fn to_mermaid(ast: &Ast) -> (res: String)
        ensures
            res@ == mermaid(ast.deep_view()),
    {
        let ghost m = ast.deep_view();
        let ghost dv = diagram_view(m);
        let mut mm = mermaid_head(&ast.package, &ast.consts, &ast.enums, &ast.frames);
        if ast.synqs.len() > 0 {
            mm.append("  Root --> Photons[Photons]\n");
            let ghost base = mm@;
            let mut i: usize = 0;
            while i < ast.synqs.len()
                invariant
                    m == ast.deep_view(),
                    dv == diagram_view(m),
                    i <= ast.synqs@.len(),
                    m.synqs.len() == ast.synqs@.len(),
                    mm@ == mm_photons(base, dv.synqs.take(i as int)),
                decreases ast.synqs@.len() - i,
            {
                let p = &ast.synqs[i];
                let ghost pm = m.synqs[i as int];
                let ghost dp = dv.synqs[i as int];
                assert(p.deep_view() == pm);
                assert(dp == diagram_photon(pm));
                mm.append("  Photons --> P_");
                mm.append(p.name.as_str());
                mm.append("[Photon: ");
                mm.append(p.name.as_str());
                mm.append("]\n");
                let ghost inner = mm@;
                let mut j: usize = 0;
                while j < p.messages.len()
                    invariant
                        pm == p.deep_view(),
                        dp == diagram_photon(pm),
                        j <= p.messages@.len(),
                        pm.messages.len() == p.messages@.len(),
                        mm@ == mm_messages(inner, pm.name, dp.messages.take(j as int)),
                    decreases p.messages@.len() - j,
                {
                    let msg = &p.messages[j];
                    assert(msg.deep_view() == pm.messages[j as int]);
                    assert(dp.messages[j as int] == diagram_message(pm.messages[j as int]));
                    push_mm_message(&mut mm, &p.name, &msg.name, &msg.req, &msg.res);
                    assert(dp.messages.take(j + 1).drop_last() =~= dp.messages.take(j as int));
                    j = j + 1;
                }
                assert(dp.messages.take(j as int) =~= dp.messages);
                assert(dv.synqs.take(i + 1).drop_last() =~= dv.synqs.take(i as int));
                i = i + 1;
            }
            assert(dv.synqs.take(i as int) =~= dv.synqs);
        }
        mm
    }
}

/// Law: the Mermaid diagram shows every frame by name, and every field of
/// it by its label (hint, name and type).
pub proof fn law_mermaid_shows_frames_and_fields(ast: AstModel, i: int, j: int)
    requires
        0 <= i < ast.frames.len(),
    ensures
        contains(mermaid(ast), "[Frame: "@ + ast.frames[i].name + "]\n"@),
        0 <= j < ast.frames[i].fields.len() ==> contains(
            mermaid(ast),
            "[\""@ + field_label(ast.frames[i].fields[j]) + "\"]\n"@,
        ),
{
    law_current_frames(diagram_view(ast), i, j);
}

/// Law: the Mermaid diagram shows every photon by name, and every message
/// of it by name, request and response.
pub proof fn law_mermaid_shows_photons_and_messages(ast: AstModel, i: int, j: int)
    requires
        0 <= i < ast.synqs.len(),
    ensures
        contains(mermaid(ast), "[Photon: "@ + ast.synqs[i].name + "]\n"@),
        0 <= j < ast.synqs[i].messages.len() ==> {
            let m = ast.synqs[i].messages[j];
            &&& contains(mermaid(ast), "[Message: "@ + m.name + "]\n"@)
            &&& contains(mermaid(ast), "_Q[Req: "@ + m.req + "]\n"@)
            &&& contains(mermaid(ast), "_S[Res: "@ + m.res + "]\n"@)
        },
{
    let dv = diagram_view(ast);
    assert(dv.synqs[i] == diagram_photon(ast.synqs[i]));
    if 0 <= j < ast.synqs[i].messages.len() {
        assert(dv.synqs[i].messages[j] == diagram_message(ast.synqs[i].messages[j]));
    }
    law_current_photons(dv, i, j);
}

/// `acc`, then a line for each token text of a message's block.
pub open spec fn pr_body_lines(acc: Seq<char>, xs: Seq<Seq<char>>) -> Seq<char>
    decreases xs.len(),
{
    if xs.len() == 0 {
        acc
    } else {
        pr_body_lines(acc, xs.drop_last()) + "        "@ + xs.last() + "\n"@
    }
}

pub open spec fn pr_body(acc: Seq<char>, o: OptModel) -> Seq<char> {
    pr_body_lines(acc + "      body "@ + o.name + " {\n"@, o.body) + "      }\n"@
}

pub open spec fn pr_message(acc: Seq<char>, m: MessageModel) -> Seq<char> {
    let head = acc + "    message "@ + m.name + " {\n"@ + "      req: "@ + m.req + "\n"@
        + "      res: "@ + m.res + "\n"@;
    let with_body = match m.body {
        Some(o) => pr_body(head, o),
        None => head,
    };
    with_body + "    }\n"@
}

pub open spec fn pr_messages(acc: Seq<char>, xs: Seq<MessageModel>) -> Seq<char>
    decreases xs.len(),
{
    if xs.len() == 0 {
        acc
    } else {
        pr_message(pr_messages(acc, xs.drop_last()), xs.last())
    }
}

pub open spec fn pr_photon(acc: Seq<char>, p: PhotonModel) -> Seq<char> {
    pr_messages(pr_attrs(acc + "  synq "@ + p.name + " {\n"@, p.attrs), p.messages) + "  }\n"@
}

pub open spec fn pr_photons(acc: Seq<char>, xs: Seq<PhotonModel>) -> Seq<char>
    decreases xs.len(),
{
    if xs.len() == 0 {
        acc
    } else {
        pr_photon(pr_photons(acc, xs.drop_last()), xs.last())
    }
}

/// The outline of a syntax tree: as the current printer writes it, but a
/// message's block is `body Name {` with one line per token text, then `}`.
pub open spec fn outline(ast: AstModel) -> Seq<char> {
    let t5 = outline_through_frames(
        ast.package,
        ast.import,
        ast.options,
        ast.consts,
        ast.enums,
        ast.frames,
    );
    if ast.synqs.len() > 0 {
        pr_photons(t5 + "\nPhotons:\n"@, ast.synqs)
    } else {
        t5
    }
}

fn push_message(out: &mut String, m: &MessageDecl)
    ensures
        final(out)@ == pr_message(old(out)@, m.deep_view()),
{
    out.append("    message ");
    out.append(m.name.as_str());
    out.append(" {\n");
    out.append("      req: ");
    out.append(m.req.as_str());
    out.append("\n");
    out.append("      res: ");
    out.append(m.res.as_str());
    out.append("\n");
    match &m.body {
        Some(opt) => {
            let ghost v = opt.body.deep_view();
            out.append("      body ");
            out.append(opt.name.as_str());
            out.append(" {\n");
            let ghost base = out@;
            let mut i: usize = 0;
            while i < opt.body.len()
                invariant
                    v == opt.body.deep_view(),
                    i <= opt.body@.len(),
                    v.len() == opt.body@.len(),
                    out@ == pr_body_lines(base, v.take(i as int)),
                decreases opt.body@.len() - i,
            {
                out.append("        ");
                out.append(opt.body[i].as_str());
                out.append("\n");
                assert(v.take(i + 1).drop_last() =~= v.take(i as int));
                i = i + 1;
            }
            assert(v.take(i as int) =~= v);
            out.append("      }\n");
        },
        None => {},
    }
    out.append("    }\n");
}

fn push_photon(out: &mut String, p: &PhotonDecl)
    ensures
        final(out)@ == pr_photon(old(out)@, p.deep_view()),
{
    let ghost pm = p.deep_view();
    out.append("  synq ");
    out.append(p.name.as_str());
    out.append(" {\n");
    push_attrs(out, &p.attrs);
    let ghost base = out@;
    let mut i: usize = 0;
    while i < p.messages.len()
        invariant
            pm == p.deep_view(),
            i <= p.messages@.len(),
            pm.messages.len() == p.messages@.len(),
            out@ == pr_messages(base, pm.messages.take(i as int)),
        decreases p.messages@.len() - i,
    {
        assert(p.messages[i as int].deep_view() == pm.messages[i as int]);
        push_message(out, &p.messages[i]);
        assert(pm.messages.take(i + 1).drop_last() =~= pm.messages.take(i as int));
        i = i + 1;
    }
    assert(pm.messages.take(i as int) =~= pm.messages);
    out.append("  }\n");
}

impl AstPrinter {
    /// The outline of `ast` (see [`outline`]): the text that printing the
    /// tree shows.
    pub fn render(ast: &Ast) -> (res: String)
        ensures
            res@ == outline(ast.deep_view()),
    {
        let ghost m = ast.deep_view();
        let mut out = render_head(
            &ast.package,
            &ast.import,
            &ast.options,
            &ast.consts,
            &ast.enums,
            &ast.frames,
        );
        if ast.synqs.len() > 0 {
            out.append("\nPhotons:\n");
            let ghost base = out@;
            let mut i: usize = 0;
            while i < ast.synqs.len()
                invariant
                    m == ast.deep_view(),
                    i <= ast.synqs@.len(),
                    m.synqs.len() == ast.synqs@.len(),
                    out@ == pr_photons(base, m.synqs.take(i as int)),
                decreases ast.synqs@.len() - i,
            {
                assert(ast.synqs[i as int].deep_view() == m.synqs[i as int]);
                push_photon(&mut out, &ast.synqs[i]);
                assert(m.synqs.take(i + 1).drop_last() =~= m.synqs.take(i as int));
                i = i + 1;
            }
            assert(m.synqs.take(i as int) =~= m.synqs);
        }
        out
    }
}

} // verus!
