//! Laws of the earlier printer's outline: which lines it holds, and in
//! which order.
use crate::codec::ast_printer::{
    outline, pr_body, pr_body_lines, pr_message, pr_messages, pr_photon, pr_photons,
};
use crate::codec::parser::{AstModel, MessageModel, PhotonModel};
use crate::synq::ast_printer::{
    contains, is_prefix, lemma_prefix_trans, outline_through_frames, pr_attrs, pr_consts,
    pr_enums, pr_frames,
};
use crate::synq::outline_laws::{
    attr_line, const_line, lemma_attr_lines, lemma_consts_lines, lemma_contains_grow,
    lemma_contains_tail, lemma_px_attrs, lemma_px_enums, lemma_px_frames,
};
use crate::synq::ast_printer::lemma_contains_after_prefix;
use vstd::prelude::*;

verus! {

proof fn lemma_px_refl(a: Seq<char>)
    ensures
        is_prefix(a, a),
{
    assert(a.subrange(0, a.len() as int) =~= a);
}

proof fn lemma_px_body_lines(acc: Seq<char>, xs: Seq<Seq<char>>)
    ensures
        is_prefix(acc, pr_body_lines(acc, xs)),
    decreases xs.len(),
{
    if xs.len() == 0 {
        lemma_px_refl(acc);
    } else {
        let x = pr_body_lines(acc, xs.drop_last());
        lemma_px_body_lines(acc, xs.drop_last());
        assert(pr_body_lines(acc, xs).subrange(0, x.len() as int) =~= x);
        lemma_prefix_trans(acc, x, pr_body_lines(acc, xs));
    }
}

proof fn lemma_px_messages(acc: Seq<char>, xs: Seq<MessageModel>)
    ensures
        is_prefix(acc, pr_messages(acc, xs)),
    decreases xs.len(),
{
    if xs.len() == 0 {
        lemma_px_refl(acc);
    } else {
        let x = pr_messages(acc, xs.drop_last());
        let m = xs.last();
        lemma_px_messages(acc, xs.drop_last());
        let head = x + "    message "@ + m.name + " {\n"@ + "      req: "@ + m.req + "\n"@
            + "      res: "@ + m.res + "\n"@;
        assert(head.subrange(0, x.len() as int) =~= x);
        let wb = match m.body {
            Some(o) => pr_body(head, o),
            None => head,
        };
        match m.body {
            Some(o) => {
                let h2 = head + "      body "@ + o.name + " {\n"@;
                assert(h2.subrange(0, head.len() as int) =~= head);
                lemma_px_body_lines(h2, o.body);
                let l = pr_body_lines(h2, o.body);
                assert((l + "      }\n"@).subrange(0, l.len() as int) =~= l);
                lemma_prefix_trans(head, h2, l);
                lemma_prefix_trans(head, l, wb);
            },
            None => lemma_px_refl(head),
        }
        assert((wb + "    }\n"@).subrange(0, wb.len() as int) =~= wb);
        lemma_prefix_trans(x, head, wb);
        lemma_prefix_trans(x, wb, wb + "    }\n"@);
        lemma_prefix_trans(acc, x, pr_messages(acc, xs));
    }
}

proof fn lemma_photon_parts(x: Seq<char>, p: PhotonModel)
    ensures
        is_prefix(x, pr_attrs(x + "  synq "@ + p.name + " {\n"@, p.attrs)),
        is_prefix(pr_attrs(x + "  synq "@ + p.name + " {\n"@, p.attrs), pr_photon(x, p)),
{
    let h = x + "  synq "@ + p.name + " {\n"@;
    assert(h.subrange(0, x.len() as int) =~= x);
    let a = pr_attrs(h, p.attrs);
    lemma_px_attrs(h, p.attrs);
    lemma_prefix_trans(x, h, a);
    lemma_px_messages(a, p.messages);
    let b = pr_messages(a, p.messages);
    assert((b + "  }\n"@).subrange(0, b.len() as int) =~= b);
    lemma_prefix_trans(a, b, b + "  }\n"@);
}

proof fn lemma_px_photons(acc: Seq<char>, xs: Seq<PhotonModel>)
    ensures
        is_prefix(acc, pr_photons(acc, xs)),
    decreases xs.len(),
{
    if xs.len() == 0 {
        lemma_px_refl(acc);
    } else {
        let x = pr_photons(acc, xs.drop_last());
        lemma_px_photons(acc, xs.drop_last());
        lemma_photon_parts(x, xs.last());
        let a = pr_attrs(x + "  synq "@ + xs.last().name + " {\n"@, xs.last().attrs);
        lemma_prefix_trans(x, a, pr_photons(acc, xs));
        lemma_prefix_trans(acc, x, pr_photons(acc, xs));
    }
}

proof fn lemma_take_photons(acc: Seq<char>, xs: Seq<PhotonModel>, k: int)
    requires
        0 <= k <= xs.len(),
    ensures
        is_prefix(pr_photons(acc, xs.take(k)), pr_photons(acc, xs)),
    decreases xs.len(),
{
    if k == xs.len() {
        assert(xs.take(k) =~= xs);
        lemma_px_refl(pr_photons(acc, xs));
    } else {
        let d = xs.drop_last();
        lemma_take_photons(acc, d, k);
        assert(d.take(k) =~= xs.take(k));
        let x = pr_photons(acc, d);
        lemma_photon_parts(x, xs.last());
        let a = pr_attrs(x + "  synq "@ + xs.last().name + " {\n"@, xs.last().attrs);
        lemma_prefix_trans(x, a, pr_photons(acc, xs));
        lemma_prefix_trans(pr_photons(acc, xs.take(k)), x, pr_photons(acc, xs));
    }
}

/// Law: in the outline, each photon's block lists its attributes, one
/// `    @key(val)` line each, in order: the first right after the photon's
/// `  synq Name {` line, each next one right after the one before.
#[verifier::spinoff_prover]
pub proof fn law_outline_lists_photon_attributes(ast: AstModel, i: int, j: int)
    requires
        0 <= i < ast.synqs.len(),
        0 <= j < ast.synqs[i].attrs.len(),
    ensures
        j == 0 ==> contains(
            outline(ast),
            "  synq "@ + ast.synqs[i].name + " {\n"@ + attr_line(ast.synqs[i].attrs[0]),
        ),
        j > 0 ==> contains(
            outline(ast),
            attr_line(ast.synqs[i].attrs[j - 1]) + attr_line(ast.synqs[i].attrs[j]),
        ),
{
    let t5 = outline_through_frames(
        ast.package,
        ast.import,
        ast.options,
        ast.consts,
        ast.enums,
        ast.frames,
    );
    let acc = t5 + "\nPhotons:\n"@;
    let ps = ast.synqs;
    let p = ps[i];
    lemma_take_photons(acc, ps, i + 1);
    let t1 = ps.take(i + 1);
    assert(t1.drop_last() =~= ps.take(i));
    assert(t1.last() == p);
    let x = pr_photons(acc, ps.take(i));
    let h = x + "  synq "@ + p.name + " {\n"@;
    let a = pr_attrs(h, p.attrs);
    lemma_photon_parts(x, p);
    assert(pr_photons(acc, t1) == pr_photon(x, p));
    lemma_prefix_trans(a, pr_photons(acc, t1), outline(ast));
    lemma_attr_lines(h, p.attrs, j);
    if j == 0 {
        let n = "  synq "@ + p.name + " {\n"@ + attr_line(p.attrs[0]);
        assert(h + attr_line(p.attrs[0]) =~= x + n);
        lemma_contains_tail(a, x, n);
        lemma_contains_grow(a, outline(ast), n);
    } else {
        lemma_contains_grow(a, outline(ast), attr_line(p.attrs[j - 1]) + attr_line(p.attrs[j]));
    }
}

/// Law: the outline lists every constant on a line of its own, `  const `,
/// its name, ` = `, its value, in order: the first right after the
/// `Constants:` title, each next one right after the one before.
#[verifier::spinoff_prover]
pub proof fn law_outline_lists_constants(ast: AstModel, j: int)
    requires
        0 <= j < ast.consts.len(),
    ensures
        j == 0 ==> contains(outline(ast), "\nConstants:\n"@ + const_line(ast.consts[0])),
        j > 0 ==> contains(
            outline(ast),
            const_line(ast.consts[j - 1]) + const_line(ast.consts[j]),
        ),
{
    let t0 = "AST for package: "@ + ast.package + "\n"@;
    let t1 = if ast.import.len() > 0 {
        crate::synq::ast_printer::pr_imports(t0 + "\nImports:\n"@, ast.import)
    } else {
        t0
    };
    let t2 = if ast.options.len() > 0 {
        crate::synq::ast_printer::pr_options(t1 + "\nOptions:\n"@, ast.options)
    } else {
        t1
    };
    let base = t2 + "\nConstants:\n"@;
    let t3 = pr_consts(base, ast.consts);
    let t4 = if ast.enums.len() > 0 {
        pr_enums(t3 + "\nEnums:\n"@, ast.enums)
    } else {
        t3
    };
    let t5 = if ast.frames.len() > 0 {
        pr_frames(t4 + "\nFrames:\n"@, ast.frames)
    } else {
        t4
    };
    if ast.enums.len() > 0 {
        assert((t3 + "\nEnums:\n"@).subrange(0, t3.len() as int) =~= t3);
        lemma_px_enums(t3 + "\nEnums:\n"@, ast.enums);
        lemma_prefix_trans(t3, t3 + "\nEnums:\n"@, t4);
    } else {
        lemma_px_refl(t3);
    }
    if ast.frames.len() > 0 {
        assert((t4 + "\nFrames:\n"@).subrange(0, t4.len() as int) =~= t4);
        lemma_px_frames(t4 + "\nFrames:\n"@, ast.frames);
        lemma_prefix_trans(t4, t4 + "\nFrames:\n"@, t5);
    } else {
        lemma_px_refl(t4);
    }
    lemma_prefix_trans(t3, t4, t5);
    if ast.synqs.len() > 0 {
        let b = t5 + "\nPhotons:\n"@;
        assert(b.subrange(0, t5.len() as int) =~= t5);
        lemma_px_photons(b, ast.synqs);
        lemma_prefix_trans(t5, b, outline(ast));
    } else {
        lemma_px_refl(t5);
    }
    lemma_prefix_trans(t3, t5, outline(ast));
    lemma_consts_lines(base, ast.consts, j);
    if j == 0 {
        let n = "\nConstants:\n"@ + const_line(ast.consts[0]);
        assert(base + const_line(ast.consts[0]) =~= t2 + n);
        lemma_contains_tail(t3, t2, n);
        lemma_contains_grow(t3, outline(ast), n);
    } else {
        lemma_contains_grow(
            t3,
            outline(ast),
            const_line(ast.consts[j - 1]) + const_line(ast.consts[j]),
        );
    }
}

/// The outline's first lines for a message: its name, request and
/// response.
pub open spec fn message_head(m: MessageModel) -> Seq<char> {
    "    message "@ + m.name + " {\n"@ + "      req: "@ + m.req + "\n"@ + "      res: "@ + m.res
        + "\n"@
}

proof fn lemma_message_has_head(x: Seq<char>, m: MessageModel)
    ensures
        is_prefix(x + message_head(m), pr_message(x, m)),
{
    let head = x + "    message "@ + m.name + " {\n"@ + "      req: "@ + m.req + "\n"@
        + "      res: "@ + m.res + "\n"@;
    assert(head =~= x + message_head(m));
    let wb = match m.body {
        Some(o) => pr_body(head, o),
        None => head,
    };
    match m.body {
        Some(o) => {
            let h2 = head + "      body "@ + o.name + " {\n"@;
            assert(h2.subrange(0, head.len() as int) =~= head);
            lemma_px_body_lines(h2, o.body);
            let l = pr_body_lines(h2, o.body);
            assert((l + "      }\n"@).subrange(0, l.len() as int) =~= l);
            lemma_prefix_trans(head, h2, l);
            lemma_prefix_trans(head, l, wb);
        },
        None => lemma_px_refl(head),
    }
    assert((wb + "    }\n"@).subrange(0, wb.len() as int) =~= wb);
    lemma_prefix_trans(head, wb, pr_message(x, m));
}

proof fn lemma_take_messages(acc: Seq<char>, xs: Seq<MessageModel>, k: int)
    requires
        0 <= k <= xs.len(),
    ensures
        is_prefix(pr_messages(acc, xs.take(k)), pr_messages(acc, xs)),
    decreases xs.len(),
{
    if k == xs.len() {
        assert(xs.take(k) =~= xs);
        lemma_px_refl(pr_messages(acc, xs));
    } else {
        let d = xs.drop_last();
        lemma_take_messages(acc, d, k);
        assert(d.take(k) =~= xs.take(k));
        let x = pr_messages(acc, d);
        let m = xs.last();
        lemma_message_has_head(x, m);
        assert((x + message_head(m)).subrange(0, x.len() as int) =~= x);
        lemma_prefix_trans(x, x + message_head(m), pr_messages(acc, xs));
        lemma_prefix_trans(pr_messages(acc, xs.take(k)), x, pr_messages(acc, xs));
    }
}

/// Law: in the outline, each message of each photon starts with its lines
/// `    message NAME {`, `      req: REQ` and `      res: RES`.
#[verifier::spinoff_prover]
pub proof fn law_outline_lists_messages(ast: AstModel, i: int, k: int)
    requires
        0 <= i < ast.synqs.len(),
        0 <= k < ast.synqs[i].messages.len(),
    ensures
        contains(outline(ast), message_head(ast.synqs[i].messages[k])),
{
    let t5 = outline_through_frames(
        ast.package,
        ast.import,
        ast.options,
        ast.consts,
        ast.enums,
        ast.frames,
    );
    let acc = t5 + "\nPhotons:\n"@;
    let ps = ast.synqs;
    let p = ps[i];
    lemma_take_photons(acc, ps, i + 1);
    let t1 = ps.take(i + 1);
    assert(t1.drop_last() =~= ps.take(i));
    assert(t1.last() == p);
    let x = pr_photons(acc, ps.take(i));
    let h = x + "  synq "@ + p.name + " {\n"@;
    let a = pr_attrs(h, p.attrs);
    let b = pr_messages(a, p.messages);
    assert((b + "  }\n"@).subrange(0, b.len() as int) =~= b);
    assert(pr_photons(acc, t1) == b + "  }\n"@);
    lemma_prefix_trans(b, pr_photons(acc, t1), outline(ast));
    let ms = p.messages;
    lemma_take_messages(a, ms, k + 1);
    let m1 = ms.take(k + 1);
    assert(m1.drop_last() =~= ms.take(k));
    assert(m1.last() == ms[k]);
    let y = pr_messages(a, ms.take(k));
    lemma_message_has_head(y, ms[k]);
    lemma_prefix_trans(y + message_head(ms[k]), pr_messages(a, m1), b);
    lemma_contains_after_prefix(y, message_head(ms[k]), b);
    lemma_contains_grow(b, outline(ast), message_head(ms[k]));
}

} // verus!
