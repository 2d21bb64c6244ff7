//! Laws of the text outline: which lines it holds, and in which order.
use crate::synq::ast::{
    AstModel, AttrModel, CallModel, ConstModel, EnumModel, FieldModel, FrameModel, HintModel,
    MessageModel, OptModel, PhotonModel, ReservedModel,
};
use crate::synq::ast_printer::{
    contains, is_prefix, join_onto, lemma_contains_after_prefix, lemma_prefix_trans, outline,
    outline_through_frames, pr_attrs, pr_imports, pr_options, pr_call, pr_calls, pr_consts, pr_enum, pr_enum_consts,
    pr_enums, pr_fields, pr_frame, pr_frames, pr_message, pr_messages, pr_option, pr_photon,
    pr_photons, pr_reserved, pr_uses, with_hint,
};
use vstd::prelude::*;

verus! {

proof fn lemma_px_refl(a: Seq<char>)
    ensures
        is_prefix(a, a),
{
    assert(a.subrange(0, a.len() as int) =~= a);
}

pub proof fn lemma_px_join(acc: Seq<char>, sep: Seq<char>, xs: Seq<Seq<char>>)
    ensures
        is_prefix(acc, join_onto(acc, sep, xs)),
    decreases xs.len(),
{
    if xs.len() == 0 {
        lemma_px_refl(acc);
    } else if xs.len() == 1 {
        assert((acc + xs[0]).subrange(0, acc.len() as int) =~= acc);
    } else {
        let x = join_onto(acc, sep, xs.drop_last());
        lemma_px_join(acc, sep, xs.drop_last());
        assert((x + sep + xs.last()).subrange(0, x.len() as int) =~= x);
        lemma_prefix_trans(acc, x, x + sep + xs.last());
    }
}

pub proof fn lemma_px_attrs(acc: Seq<char>, xs: Seq<AttrModel>)
    ensures
        is_prefix(acc, pr_attrs(acc, xs)),
    decreases xs.len(),
{
    if xs.len() == 0 {
        lemma_px_refl(acc);
    } else {
        let x = pr_attrs(acc, xs.drop_last());
        lemma_px_attrs(acc, xs.drop_last());
        assert(pr_attrs(acc, xs).subrange(0, x.len() as int) =~= x);
        lemma_prefix_trans(acc, x, pr_attrs(acc, xs));
    }
}

proof fn lemma_px_hint(acc: Seq<char>, h: Option<Seq<char>>)
    ensures
        is_prefix(acc, with_hint(acc, h)),
{
    match h {
        Some(s) => assert((acc + s + " "@).subrange(0, acc.len() as int) =~= acc),
        None => lemma_px_refl(acc),
    }
}

pub proof fn lemma_px_fields(acc: Seq<char>, xs: Seq<FieldModel>)
    ensures
        is_prefix(acc, pr_fields(acc, xs)),
    decreases xs.len(),
{
    if xs.len() == 0 {
        lemma_px_refl(acc);
    } else {
        let x = pr_fields(acc, xs.drop_last());
        lemma_px_fields(acc, xs.drop_last());
        let y = x + "    "@;
        assert(y.subrange(0, x.len() as int) =~= x);
        lemma_px_hint(y, xs.last().hint);
        let w = with_hint(y, xs.last().hint);
        assert(pr_fields(acc, xs).subrange(0, w.len() as int) =~= w);
        lemma_prefix_trans(x, y, w);
        lemma_prefix_trans(x, w, pr_fields(acc, xs));
        lemma_prefix_trans(acc, x, pr_fields(acc, xs));
    }
}

pub proof fn lemma_px_reserved(acc: Seq<char>, xs: Seq<ReservedModel>)
    ensures
        is_prefix(acc, pr_reserved(acc, xs)),
    decreases xs.len(),
{
    if xs.len() == 0 {
        lemma_px_refl(acc);
    } else {
        let x = pr_reserved(acc, xs.drop_last());
        lemma_px_reserved(acc, xs.drop_last());
        let y = x + "    reserved "@;
        assert(y.subrange(0, x.len() as int) =~= x);
        lemma_px_join(y, ", "@, xs.last().reservations);
        let w = join_onto(y, ", "@, xs.last().reservations);
        assert(pr_reserved(acc, xs).subrange(0, w.len() as int) =~= w);
        lemma_prefix_trans(x, y, w);
        lemma_prefix_trans(x, w, pr_reserved(acc, xs));
        lemma_prefix_trans(acc, x, pr_reserved(acc, xs));
    }
}

pub proof fn lemma_px_frames(acc: Seq<char>, xs: Seq<FrameModel>)
    ensures
        is_prefix(acc, pr_frames(acc, xs)),
    decreases xs.len(),
{
    if xs.len() == 0 {
        lemma_px_refl(acc);
    } else {
        let x = pr_frames(acc, xs.drop_last());
        let f = xs.last();
        lemma_px_frames(acc, xs.drop_last());
        let h = x + "  frame "@ + f.name + " {\n"@;
        assert(h.subrange(0, x.len() as int) =~= x);
        let a = pr_attrs(h, f.attrs);
        lemma_px_attrs(h, f.attrs);
        let b = pr_fields(a, f.fields);
        lemma_px_fields(a, f.fields);
        let c = pr_reserved(b, f.reservations);
        lemma_px_reserved(b, f.reservations);
        assert((c + "  }\n"@).subrange(0, c.len() as int) =~= c);
        lemma_prefix_trans(x, h, a);
        lemma_prefix_trans(x, a, b);
        lemma_prefix_trans(x, b, c);
        lemma_prefix_trans(x, c, c + "  }\n"@);
        lemma_prefix_trans(acc, x, pr_frames(acc, xs));
    }
}

pub proof fn lemma_px_enum_consts(acc: Seq<char>, xs: Seq<ConstModel>)
    ensures
        is_prefix(acc, pr_enum_consts(acc, xs)),
    decreases xs.len(),
{
    if xs.len() == 0 {
        lemma_px_refl(acc);
    } else {
        let x = pr_enum_consts(acc, xs.drop_last());
        lemma_px_enum_consts(acc, xs.drop_last());
        assert(pr_enum_consts(acc, xs).subrange(0, x.len() as int) =~= x);
        lemma_prefix_trans(acc, x, pr_enum_consts(acc, xs));
    }
}

pub proof fn lemma_px_enums(acc: Seq<char>, xs: Seq<EnumModel>)
    ensures
        is_prefix(acc, pr_enums(acc, xs)),
    decreases xs.len(),
{
    if xs.len() == 0 {
        lemma_px_refl(acc);
    } else {
        let x = pr_enums(acc, xs.drop_last());
        let e = xs.last();
        lemma_px_enums(acc, xs.drop_last());
        let h = x + "  enum "@ + e.name + " {\n"@;
        assert(h.subrange(0, x.len() as int) =~= x);
        let c = pr_enum_consts(h, e.consts);
        lemma_px_enum_consts(h, e.consts);
        assert((c + "  }\n"@).subrange(0, c.len() as int) =~= c);
        lemma_prefix_trans(x, h, c);
        lemma_prefix_trans(x, c, c + "  }\n"@);
        lemma_prefix_trans(acc, x, pr_enums(acc, xs));
    }
}

pub proof fn lemma_px_uses(acc: Seq<char>, xs: Seq<Seq<char>>)
    ensures
        is_prefix(acc, pr_uses(acc, xs)),
    decreases xs.len(),
{
    if xs.len() == 0 {
        lemma_px_refl(acc);
    } else {
        let x = pr_uses(acc, xs.drop_last());
        lemma_px_uses(acc, xs.drop_last());
        assert(pr_uses(acc, xs).subrange(0, x.len() as int) =~= x);
        lemma_prefix_trans(acc, x, pr_uses(acc, xs));
    }
}

pub proof fn lemma_px_call(acc: Seq<char>, c: CallModel)
    ensures
        is_prefix(acc, pr_call(acc, c)),
{
    let y = acc + "        "@;
    assert(y.subrange(0, acc.len() as int) =~= acc);
    lemma_px_hint(y, c.hint);
    let w = with_hint(y, c.hint);
    let head = w + c.fun_name;
    assert(head.subrange(0, w.len() as int) =~= w);
    lemma_prefix_trans(acc, y, w);
    lemma_prefix_trans(acc, w, head);
    let o = if c.is_call {
        head + "("@
    } else {
        head + " "@
    };
    let sep = if c.is_call {
        ", "@
    } else {
        " "@
    };
    let tail = if c.is_call {
        ")\n"@
    } else {
        "\n"@
    };
    assert(o.subrange(0, head.len() as int) =~= head);
    lemma_px_join(o, sep, c.fun_params);
    let j = join_onto(o, sep, c.fun_params);
    assert((j + tail).subrange(0, j.len() as int) =~= j);
    assert(pr_call(acc, c) == j + tail);
    lemma_prefix_trans(acc, head, o);
    lemma_prefix_trans(acc, o, j);
    lemma_prefix_trans(acc, j, j + tail);
}

pub proof fn lemma_px_calls(acc: Seq<char>, xs: Seq<CallModel>)
    ensures
        is_prefix(acc, pr_calls(acc, xs)),
    decreases xs.len(),
{
    if xs.len() == 0 {
        lemma_px_refl(acc);
    } else {
        let x = pr_calls(acc, xs.drop_last());
        lemma_px_calls(acc, xs.drop_last());
        lemma_px_call(x, xs.last());
        lemma_prefix_trans(acc, x, pr_calls(acc, xs));
    }
}

pub proof fn lemma_px_option(acc: Seq<char>, o: OptModel)
    ensures
        is_prefix(acc, pr_option(acc, o)),
{
    let head = acc + "      option ("@ + o.body.name + ") {\n"@;
    assert(head.subrange(0, acc.len() as int) =~= acc);
    let u = match o.body.namespaces {
        Some(ns) => pr_uses(head, ns),
        None => head,
    };
    match o.body.namespaces {
        Some(ns) => lemma_px_uses(head, ns),
        None => lemma_px_refl(head),
    }
    lemma_px_calls(u, o.body.calls);
    let c = pr_calls(u, o.body.calls);
    assert((c + "      }\n"@).subrange(0, c.len() as int) =~= c);
    lemma_prefix_trans(acc, head, u);
    lemma_prefix_trans(acc, u, c);
    lemma_prefix_trans(acc, c, c + "      }\n"@);
}

pub proof fn lemma_px_messages(acc: Seq<char>, xs: Seq<MessageModel>)
    ensures
        is_prefix(acc, pr_messages(acc, xs)),
    decreases xs.len(),
{
    if xs.len() == 0 {
        lemma_px_refl(acc);
    } else {
        let x = pr_messages(acc, xs.drop_last());
        let m = xs.last();
        lemma_px_messages(acc, xs.drop_last());
        let head = x + "    message "@ + m.name + " {\n"@ + "      req: "@ + m.req + "\n"@
            + "      res: "@ + m.res + "\n"@;
        assert(head.subrange(0, x.len() as int) =~= x);
        let wb = match m.body {
            Some(o) => pr_option(head, o),
            None => head,
        };
        match m.body {
            Some(o) => lemma_px_option(head, o),
            None => lemma_px_refl(head),
        }
        assert((wb + "    }\n"@).subrange(0, wb.len() as int) =~= wb);
        lemma_prefix_trans(x, head, wb);
        lemma_prefix_trans(x, wb, wb + "    }\n"@);
        lemma_prefix_trans(acc, x, pr_messages(acc, xs));
    }
}

pub proof fn lemma_px_photons(acc: Seq<char>, xs: Seq<PhotonModel>)
    ensures
        is_prefix(acc, pr_photons(acc, xs)),
    decreases xs.len(),
{
    if xs.len() == 0 {
        lemma_px_refl(acc);
    } else {
        let x = pr_photons(acc, xs.drop_last());
        let p = xs.last();
        lemma_px_photons(acc, xs.drop_last());
        let h = x + "  synq "@ + p.name + " {\n"@;
        assert(h.subrange(0, x.len() as int) =~= x);
        let a = pr_attrs(h, p.attrs);
        lemma_px_attrs(h, p.attrs);
        let b = pr_messages(a, p.messages);
        lemma_px_messages(a, p.messages);
        assert((b + "  }\n"@).subrange(0, b.len() as int) =~= b);
        lemma_prefix_trans(x, h, a);
        lemma_prefix_trans(x, a, b);
        lemma_prefix_trans(x, b, b + "  }\n"@);
        lemma_prefix_trans(acc, x, pr_photons(acc, xs));
    }
}

#[verifier::spinoff_prover]
pub proof fn lemma_take_consts(acc: Seq<char>, xs: Seq<ConstModel>, k: int)
    requires
        0 <= k <= xs.len(),
    ensures
        is_prefix(pr_consts(acc, xs.take(k)), pr_consts(acc, xs)),
    decreases xs.len(),
{
    if k == xs.len() {
        assert(xs.take(k) =~= xs);
        lemma_px_refl(pr_consts(acc, xs));
    } else {
        let d = xs.drop_last();
        lemma_take_consts(acc, d, k);
        assert(d.take(k) =~= xs.take(k));
        let x = pr_consts(acc, d);
        assert(pr_consts(acc, xs).subrange(0, x.len() as int) =~= x);
        lemma_prefix_trans(pr_consts(acc, xs.take(k)), x, pr_consts(acc, xs));
    }
}

#[verifier::spinoff_prover]
pub proof fn lemma_take_attrs(acc: Seq<char>, xs: Seq<AttrModel>, k: int)
    requires
        0 <= k <= xs.len(),
    ensures
        is_prefix(pr_attrs(acc, xs.take(k)), pr_attrs(acc, xs)),
    decreases xs.len(),
{
    if k == xs.len() {
        assert(xs.take(k) =~= xs);
        lemma_px_refl(pr_attrs(acc, xs));
    } else {
        let d = xs.drop_last();
        lemma_take_attrs(acc, d, k);
        assert(d.take(k) =~= xs.take(k));
        let x = pr_attrs(acc, d);
        assert(pr_attrs(acc, xs).subrange(0, x.len() as int) =~= x);
        lemma_prefix_trans(pr_attrs(acc, xs.take(k)), x, pr_attrs(acc, xs));
    }
}

#[verifier::spinoff_prover]
pub proof fn lemma_take_photons(acc: Seq<char>, xs: Seq<PhotonModel>, k: int)
    requires
        0 <= k <= xs.len(),
    ensures
        is_prefix(pr_photons(acc, xs.take(k)), pr_photons(acc, xs)),
    decreases xs.len(),
{
    if k == xs.len() {
        assert(xs.take(k) =~= xs);
        lemma_px_refl(pr_photons(acc, xs));
    } else {
        let d = xs.drop_last();
        lemma_take_photons(acc, d, k);
        assert(d.take(k) =~= xs.take(k));
        let x = pr_photons(acc, d);
        lemma_px_photons(acc, xs);
        lemma_px_photons(acc, d);
        let p = xs.last();
        let h = x + "  synq "@ + p.name + " {\n"@;
        assert(h.subrange(0, x.len() as int) =~= x);
        lemma_px_attrs(h, p.attrs);
        lemma_px_messages(pr_attrs(h, p.attrs), p.messages);
        let b = pr_messages(pr_attrs(h, p.attrs), p.messages);
        assert((b + "  }\n"@).subrange(0, b.len() as int) =~= b);
        lemma_prefix_trans(x, h, pr_attrs(h, p.attrs));
        lemma_prefix_trans(x, pr_attrs(h, p.attrs), b);
        lemma_prefix_trans(x, b, pr_photons(acc, xs));
        lemma_prefix_trans(pr_photons(acc, xs.take(k)), x, pr_photons(acc, xs));
    }
}

/// The outline's line for a constant.
pub open spec fn const_line(c: ConstModel) -> Seq<char> {
    "  const "@ + c.name + " = "@ + c.value + "\n"@
}

/// The outline's line for an attribute of a frame or photon.
pub open spec fn attr_line(a: AttrModel) -> Seq<char> {
    "    @"@ + a.key + "("@ + a.val + ")\n"@
}

/// The constants' lines: the line of constant `j` follows that of constant
/// `j - 1` (the first follows the section's title).
#[verifier::spinoff_prover]
pub proof fn lemma_consts_lines(base: Seq<char>, cs: Seq<ConstModel>, j: int)
    requires
        0 <= j < cs.len(),
    ensures
        j == 0 ==> contains(pr_consts(base, cs), base + const_line(cs[0])),
        j > 0 ==> contains(pr_consts(base, cs), const_line(cs[j - 1]) + const_line(cs[j])),
{
    lemma_take_consts(base, cs, j + 1);
    let t1 = cs.take(j + 1);
    assert(t1.drop_last() =~= cs.take(j));
    assert(t1.last() == cs[j]);
    let whole = pr_consts(base, cs);
    if j == 0 {
        assert(cs.take(0) =~= Seq::<ConstModel>::empty());
        assert(pr_consts(base, cs.take(0)) == base);
        assert(pr_consts(base, t1) == pr_consts(base, cs.take(0)) + "  const "@ + cs[0].name + " = "@ + cs[0].value + "\n"@);
        assert(pr_consts(base, t1) =~= Seq::<char>::empty() + (base + const_line(cs[0])));
        lemma_contains_after_prefix(Seq::empty(), base + const_line(cs[0]), whole);
    } else {
        let t0 = cs.take(j);
        assert(t0.drop_last() =~= cs.take(j - 1));
        assert(t0.last() == cs[j - 1]);
        let x = pr_consts(base, cs.take(j - 1));
        assert(pr_consts(base, t0) == x + "  const "@ + cs[j - 1].name + " = "@ + cs[j - 1].value + "\n"@);
        assert(pr_consts(base, t1) == pr_consts(base, t0) + "  const "@ + cs[j].name + " = "@ + cs[j].value + "\n"@);
        assert(pr_consts(base, t1) =~= x + (const_line(cs[j - 1]) + const_line(cs[j])));
        lemma_contains_after_prefix(x, const_line(cs[j - 1]) + const_line(cs[j]), whole);
    }
}

/// The attributes' lines: the line of attribute `j` follows that of
/// attribute `j - 1` (the first follows `acc`).
#[verifier::spinoff_prover]
pub proof fn lemma_attr_lines(acc: Seq<char>, xs: Seq<AttrModel>, j: int)
    requires
        0 <= j < xs.len(),
    ensures
        j == 0 ==> contains(pr_attrs(acc, xs), acc + attr_line(xs[0])),
        j > 0 ==> contains(pr_attrs(acc, xs), attr_line(xs[j - 1]) + attr_line(xs[j])),
{
    lemma_take_attrs(acc, xs, j + 1);
    let t1 = xs.take(j + 1);
    assert(t1.drop_last() =~= xs.take(j));
    assert(t1.last() == xs[j]);
    let whole = pr_attrs(acc, xs);
    if j == 0 {
        assert(xs.take(0) =~= Seq::<AttrModel>::empty());
        assert(pr_attrs(acc, xs.take(0)) == acc);
        assert(pr_attrs(acc, t1) == pr_attrs(acc, xs.take(0)) + "    @"@ + xs[0].key + "("@ + xs[0].val + ")\n"@);
        assert(pr_attrs(acc, t1) =~= Seq::<char>::empty() + (acc + attr_line(xs[0])));
        lemma_contains_after_prefix(Seq::empty(), acc + attr_line(xs[0]), whole);
    } else {
        let t0 = xs.take(j);
        assert(t0.drop_last() =~= xs.take(j - 1));
        assert(t0.last() == xs[j - 1]);
        let x = pr_attrs(acc, xs.take(j - 1));
        assert(pr_attrs(acc, t0) == x + "    @"@ + xs[j - 1].key + "("@ + xs[j - 1].val + ")\n"@);
        assert(pr_attrs(acc, t1) == pr_attrs(acc, t0) + "    @"@ + xs[j].key + "("@ + xs[j].val + ")\n"@);
        assert(pr_attrs(acc, t1) =~= x + (attr_line(xs[j - 1]) + attr_line(xs[j])));
        lemma_contains_after_prefix(x, attr_line(xs[j - 1]) + attr_line(xs[j]), whole);
    }
}

/// `needle` in `a`, and `a` the beginning of `b`: `needle` in `b`.
pub proof fn lemma_contains_grow(a: Seq<char>, b: Seq<char>, needle: Seq<char>)
    requires
        contains(a, needle),
        is_prefix(a, b),
    ensures
        contains(b, needle),
{
    let i = choose|i: int|
        0 <= i && i + needle.len() <= a.len() && #[trigger] a.subrange(i, i + needle.len())
            == needle;
    assert(b.subrange(i, i + needle.len()) =~= a.subrange(i, i + needle.len()));
}

/// What holds `a` followed by `b` holds `b`.
pub proof fn lemma_contains_tail(hay: Seq<char>, a: Seq<char>, b: Seq<char>)
    requires
        contains(hay, a + b),
    ensures
        contains(hay, b),
{
    let n = a + b;
    let i = choose|i: int|
        0 <= i && i + n.len() <= hay.len() && #[trigger] hay.subrange(i, i + n.len()) == n;
    let k = i + a.len();
    assert(hay.subrange(k, k + b.len()) =~= b) by {
        assert forall|q: int| 0 <= q < b.len() implies hay.subrange(k, k + b.len())[q] == b[q] by {
            assert(hay.subrange(i, i + n.len())[a.len() + q] == n[a.len() + q]);
        }
    }
}

/// The outline through its frames is the beginning of the whole outline.
pub proof fn lemma_outline_head(ast: AstModel)
    ensures
        is_prefix(
            outline_through_frames(
                ast.package,
                ast.import,
                ast.options,
                ast.consts,
                ast.enums,
                ast.frames,
            ),
            outline(ast),
        ),
{
    let t5 = outline_through_frames(
        ast.package,
        ast.import,
        ast.options,
        ast.consts,
        ast.enums,
        ast.frames,
    );
    if ast.synqs.len() > 0 {
        let b = t5 + "\nPhotons:\n"@;
        assert(b.subrange(0, t5.len() as int) =~= t5);
        lemma_px_photons(b, ast.synqs);
        lemma_prefix_trans(t5, b, outline(ast));
    } else {
        lemma_px_refl(t5);
    }
}

/// Law: the outline lists every constant on a line of its own, `  const `,
/// its name, ` = `, its value, in order: the first right after the
/// `Constants:` title, each next one right after the one before.
#[verifier::spinoff_prover]
pub proof fn law_outline_lists_constants(ast: AstModel, j: int)
    requires
        0 <= j < ast.consts.len(),
    ensures
        j == 0 ==> contains(outline(ast), "\nConstants:\n"@ + const_line(ast.consts[0])),
        j > 0 ==> contains(
            outline(ast),
            const_line(ast.consts[j - 1]) + const_line(ast.consts[j]),
        ),
{
    let t0 = "AST for package: "@ + ast.package + "\n"@;
    let t1 = if ast.import.len() > 0 {
        crate::synq::ast_printer::pr_imports(t0 + "\nImports:\n"@, ast.import)
    } else {
        t0
    };
    let t2 = if ast.options.len() > 0 {
        crate::synq::ast_printer::pr_options(t1 + "\nOptions:\n"@, ast.options)
    } else {
        t1
    };
    let base = t2 + "\nConstants:\n"@;
    let t3 = pr_consts(base, ast.consts);
    let t4 = if ast.enums.len() > 0 {
        pr_enums(t3 + "\nEnums:\n"@, ast.enums)
    } else {
        t3
    };
    let t5 = if ast.frames.len() > 0 {
        pr_frames(t4 + "\nFrames:\n"@, ast.frames)
    } else {
        t4
    };
    if ast.enums.len() > 0 {
        assert((t3 + "\nEnums:\n"@).subrange(0, t3.len() as int) =~= t3);
        lemma_px_enums(t3 + "\nEnums:\n"@, ast.enums);
        lemma_prefix_trans(t3, t3 + "\nEnums:\n"@, t4);
    } else {
        lemma_px_refl(t3);
    }
    if ast.frames.len() > 0 {
        assert((t4 + "\nFrames:\n"@).subrange(0, t4.len() as int) =~= t4);
        lemma_px_frames(t4 + "\nFrames:\n"@, ast.frames);
        lemma_prefix_trans(t4, t4 + "\nFrames:\n"@, t5);
    } else {
        lemma_px_refl(t4);
    }
    lemma_prefix_trans(t3, t4, t5);
    lemma_outline_head(ast);
    lemma_prefix_trans(t3, t5, outline(ast));
    lemma_consts_lines(base, ast.consts, j);
    if j == 0 {
        let n = "\nConstants:\n"@ + const_line(ast.consts[0]);
        assert(base + const_line(ast.consts[0]) =~= t2 + n);
        lemma_contains_tail(t3, t2, n);
        lemma_contains_grow(t3, outline(ast), n);
    } else {
        lemma_contains_grow(
            t3,
            outline(ast),
            const_line(ast.consts[j - 1]) + const_line(ast.consts[j]),
        );
    }
}

/// Law: in the outline, each photon's block lists its attributes, one
/// `    @key(val)` line each, in order: the first right after the photon's
/// `  synq Name {` line, each next one right after the one before.
#[verifier::spinoff_prover]
pub proof fn law_outline_lists_photon_attributes(ast: AstModel, i: int, j: int)
    requires
        0 <= i < ast.synqs.len(),
        0 <= j < ast.synqs[i].attrs.len(),
    ensures
        j == 0 ==> contains(
            outline(ast),
            "  synq "@ + ast.synqs[i].name + " {\n"@ + attr_line(ast.synqs[i].attrs[0]),
        ),
        j > 0 ==> contains(
            outline(ast),
            attr_line(ast.synqs[i].attrs[j - 1]) + attr_line(ast.synqs[i].attrs[j]),
        ),
{
    let t5 = outline_through_frames(
        ast.package,
        ast.import,
        ast.options,
        ast.consts,
        ast.enums,
        ast.frames,
    );
    let acc = t5 + "\nPhotons:\n"@;
    let ps = ast.synqs;
    let p = ps[i];
    lemma_take_photons(acc, ps, i + 1);
    let t1 = ps.take(i + 1);
    assert(t1.drop_last() =~= ps.take(i));
    assert(t1.last() == p);
    let x = pr_photons(acc, ps.take(i));
    let h = x + "  synq "@ + p.name + " {\n"@;
    let a = pr_attrs(h, p.attrs);
    lemma_px_messages(a, p.messages);
    let b = pr_messages(a, p.messages);
    assert((b + "  }\n"@).subrange(0, b.len() as int) =~= b);
    lemma_prefix_trans(a, b, b + "  }\n"@);
    assert(pr_photons(acc, t1) == b + "  }\n"@);
    lemma_prefix_trans(a, pr_photons(acc, t1), outline(ast));
    lemma_attr_lines(h, p.attrs, j);
    if j == 0 {
        let n = "  synq "@ + p.name + " {\n"@ + attr_line(p.attrs[0]);
        assert(h + attr_line(p.attrs[0]) =~= x + n);
        lemma_contains_tail(a, x, n);
        lemma_contains_grow(a, outline(ast), n);
    } else {
        lemma_contains_grow(a, outline(ast), attr_line(p.attrs[j - 1]) + attr_line(p.attrs[j]));
    }
}

#[verifier::spinoff_prover]
pub proof fn lemma_take_imports(acc: Seq<char>, xs: Seq<Seq<char>>, k: int)
    requires
        0 <= k <= xs.len(),
    ensures
        is_prefix(pr_imports(acc, xs.take(k)), pr_imports(acc, xs)),
    decreases xs.len(),
{
    if k == xs.len() {
        assert(xs.take(k) =~= xs);
        lemma_px_refl(pr_imports(acc, xs));
    } else {
        let d = xs.drop_last();
        lemma_take_imports(acc, d, k);
        assert(d.take(k) =~= xs.take(k));
        let x = pr_imports(acc, d);
        assert(pr_imports(acc, xs).subrange(0, x.len() as int) =~= x);
        lemma_prefix_trans(pr_imports(acc, xs.take(k)), x, pr_imports(acc, xs));
    }
}

#[verifier::spinoff_prover]
pub proof fn lemma_take_options(acc: Seq<char>, xs: Seq<HintModel>, k: int)
    requires
        0 <= k <= xs.len(),
    ensures
        is_prefix(pr_options(acc, xs.take(k)), pr_options(acc, xs)),
    decreases xs.len(),
{
    if k == xs.len() {
        assert(xs.take(k) =~= xs);
        lemma_px_refl(pr_options(acc, xs));
    } else {
        let d = xs.drop_last();
        lemma_take_options(acc, d, k);
        assert(d.take(k) =~= xs.take(k));
        let x = pr_options(acc, d);
        assert(pr_options(acc, xs).subrange(0, x.len() as int) =~= x);
        lemma_prefix_trans(pr_options(acc, xs.take(k)), x, pr_options(acc, xs));
    }
}

#[verifier::spinoff_prover]
pub proof fn lemma_take_fields(acc: Seq<char>, xs: Seq<FieldModel>, k: int)
    requires
        0 <= k <= xs.len(),
    ensures
        is_prefix(pr_fields(acc, xs.take(k)), pr_fields(acc, xs)),
    decreases xs.len(),
{
    if k == xs.len() {
        assert(xs.take(k) =~= xs);
        lemma_px_refl(pr_fields(acc, xs));
    } else {
        let d = xs.drop_last();
        lemma_take_fields(acc, d, k);
        assert(d.take(k) =~= xs.take(k));
        let x = pr_fields(acc, d);
        let y = x + "    "@;
        assert(y.subrange(0, x.len() as int) =~= x);
        lemma_px_hint(y, xs.last().hint);
        let w = with_hint(y, xs.last().hint);
        assert(pr_fields(acc, xs).subrange(0, w.len() as int) =~= w);
        lemma_prefix_trans(x, y, w);
        lemma_prefix_trans(x, w, pr_fields(acc, xs));
        lemma_prefix_trans(pr_fields(acc, xs.take(k)), x, pr_fields(acc, xs));
    }
}

#[verifier::spinoff_prover]
pub proof fn lemma_take_frames(acc: Seq<char>, xs: Seq<FrameModel>, k: int)
    requires
        0 <= k <= xs.len(),
    ensures
        is_prefix(pr_frames(acc, xs.take(k)), pr_frames(acc, xs)),
    decreases xs.len(),
{
    if k == xs.len() {
        assert(xs.take(k) =~= xs);
        lemma_px_refl(pr_frames(acc, xs));
    } else {
        let d = xs.drop_last();
        lemma_take_frames(acc, d, k);
        assert(d.take(k) =~= xs.take(k));
        let x = pr_frames(acc, d);
        let f = xs.last();
        let h = x + "  frame "@ + f.name + " {\n"@;
        assert(h.subrange(0, x.len() as int) =~= x);
        let a = pr_attrs(h, f.attrs);
        lemma_px_attrs(h, f.attrs);
        let b = pr_fields(a, f.fields);
        lemma_px_fields(a, f.fields);
        let c = pr_reserved(b, f.reservations);
        lemma_px_reserved(b, f.reservations);
        assert((c + "  }\n"@).subrange(0, c.len() as int) =~= c);
        lemma_prefix_trans(x, h, a);
        lemma_prefix_trans(x, a, b);
        lemma_prefix_trans(x, b, c);
        lemma_prefix_trans(x, c, c + "  }\n"@);
        lemma_prefix_trans(pr_frames(acc, xs.take(k)), x, pr_frames(acc, xs));
    }
}

/// The outline's line for an import.
pub open spec fn import_line(x: Seq<char>) -> Seq<char> {
    "  - "@ + x + "\n"@
}

/// The outline's line for an option.
pub open spec fn option_line(o: HintModel) -> Seq<char> {
    "  "@ + o.name + " = "@ + o.hint + "\n"@
}

/// The outline's line for a field: its hint (if any), name and type.
pub open spec fn field_line(fd: FieldModel) -> Seq<char> {
    match fd.hint {
        Some(h) => "    "@ + h + " "@ + fd.name + " "@ + fd.typ + "\n"@,
        None => "    "@ + fd.name + " "@ + fd.typ + "\n"@,
    }
}

/// The stages of the outline, each the beginning of the next and of the
/// whole.
#[verifier::spinoff_prover]
pub proof fn lemma_outline_stages(ast: AstModel)
    ensures
        ({
            let t0 = "AST for package: "@ + ast.package + "\n"@;
            let t1 = if ast.import.len() > 0 {
                pr_imports(t0 + "\nImports:\n"@, ast.import)
            } else {
                t0
            };
            let t2 = if ast.options.len() > 0 {
                pr_options(t1 + "\nOptions:\n"@, ast.options)
            } else {
                t1
            };
            let t3 = if ast.consts.len() > 0 {
                pr_consts(t2 + "\nConstants:\n"@, ast.consts)
            } else {
                t2
            };
            let t4 = if ast.enums.len() > 0 {
                pr_enums(t3 + "\nEnums:\n"@, ast.enums)
            } else {
                t3
            };
            let t5 = if ast.frames.len() > 0 {
                pr_frames(t4 + "\nFrames:\n"@, ast.frames)
            } else {
                t4
            };
            &&& is_prefix(t1, outline(ast))
            &&& is_prefix(t2, outline(ast))
            &&& is_prefix(t5, outline(ast))
        }),
{
    let t0 = "AST for package: "@ + ast.package + "\n"@;
    let t1 = if ast.import.len() > 0 {
        pr_imports(t0 + "\nImports:\n"@, ast.import)
    } else {
        t0
    };
    let t2 = if ast.options.len() > 0 {
        pr_options(t1 + "\nOptions:\n"@, ast.options)
    } else {
        t1
    };
    let t3 = if ast.consts.len() > 0 {
        pr_consts(t2 + "\nConstants:\n"@, ast.consts)
    } else {
        t2
    };
    let t4 = if ast.enums.len() > 0 {
        pr_enums(t3 + "\nEnums:\n"@, ast.enums)
    } else {
        t3
    };
    let t5 = if ast.frames.len() > 0 {
        pr_frames(t4 + "\nFrames:\n"@, ast.frames)
    } else {
        t4
    };
    if ast.options.len() > 0 {
        let b = t1 + "\nOptions:\n"@;
        assert(b.subrange(0, t1.len() as int) =~= t1);
        lemma_take_options(b, ast.options, 0);
        assert(ast.options.take(0) =~= Seq::<HintModel>::empty());
        lemma_prefix_trans(t1, b, t2);
    } else {
        lemma_px_refl(t1);
    }
    if ast.consts.len() > 0 {
        let b = t2 + "\nConstants:\n"@;
        assert(b.subrange(0, t2.len() as int) =~= t2);
        lemma_take_consts(b, ast.consts, 0);
        assert(ast.consts.take(0) =~= Seq::<ConstModel>::empty());
        lemma_prefix_trans(t2, b, t3);
    } else {
        lemma_px_refl(t2);
    }
    if ast.enums.len() > 0 {
        let b = t3 + "\nEnums:\n"@;
        assert(b.subrange(0, t3.len() as int) =~= t3);
        lemma_px_enums(b, ast.enums);
        lemma_prefix_trans(t3, b, t4);
    } else {
        lemma_px_refl(t3);
    }
    if ast.frames.len() > 0 {
        let b = t4 + "\nFrames:\n"@;
        assert(b.subrange(0, t4.len() as int) =~= t4);
        lemma_px_frames(b, ast.frames);
        lemma_prefix_trans(t4, b, t5);
    } else {
        lemma_px_refl(t4);
    }
    lemma_outline_head(ast);
    lemma_prefix_trans(t4, t5, outline(ast));
    lemma_prefix_trans(t3, t4, outline(ast));
    lemma_prefix_trans(t2, t3, outline(ast));
    lemma_prefix_trans(t1, t2, outline(ast));
}

/// Law: the outline lists every import on a line `  - NAME`, in order:
/// the first right after the `Imports:` title, each next one right after
/// the one before.
proof fn lemma_import_step(acc: Seq<char>, xs: Seq<Seq<char>>, k: int)
    requires
        0 <= k < xs.len(),
    ensures
        pr_imports(acc, xs.take(k + 1)) == pr_imports(acc, xs.take(k)) + import_line(xs[k]),
        pr_imports(acc, xs.take(0)) == acc,
{
    let k1 = xs.take(k + 1);
    assert(k1.drop_last() =~= xs.take(k));
    assert(k1.last() == xs[k]);
    assert(pr_imports(acc, k1) =~= pr_imports(acc, xs.take(k)) + import_line(xs[k]));
    assert(xs.take(0) =~= Seq::<Seq<char>>::empty());
}

proof fn lemma_option_step(acc: Seq<char>, xs: Seq<HintModel>, k: int)
    requires
        0 <= k < xs.len(),
    ensures
        pr_options(acc, xs.take(k + 1)) == pr_options(acc, xs.take(k)) + option_line(xs[k]),
        pr_options(acc, xs.take(0)) == acc,
{
    let k1 = xs.take(k + 1);
    assert(k1.drop_last() =~= xs.take(k));
    assert(k1.last() == xs[k]);
    assert(pr_options(acc, k1) =~= pr_options(acc, xs.take(k)) + option_line(xs[k]));
    assert(xs.take(0) =~= Seq::<HintModel>::empty());
}

/// Law: the outline lists every import on a line `  - NAME`, in order:
/// the first right after the `Imports:` title, each next one right after
/// the one before.
#[verifier::spinoff_prover]
pub proof fn law_outline_lists_imports(ast: AstModel, j: int)
    requires
        0 <= j < ast.import.len(),
    ensures
        j == 0 ==> contains(outline(ast), "\nImports:\n"@ + import_line(ast.import[0])),
        j > 0 ==> contains(
            outline(ast),
            import_line(ast.import[j - 1]) + import_line(ast.import[j]),
        ),
{
    lemma_outline_stages(ast);
    let t0 = "AST for package: "@ + ast.package + "\n"@;
    let base = t0 + "\nImports:\n"@;
    let xs = ast.import;
    let t1 = pr_imports(base, xs);
    assert(is_prefix(t1, outline(ast)));
    lemma_take_imports(base, xs, j + 1);
    lemma_import_step(base, xs, j);
    let z = pr_imports(base, xs.take(j + 1));
    if j == 0 {
        let n = "\nImports:\n"@ + import_line(xs[0]);
        assert(z =~= t0 + n);
        lemma_contains_after_prefix(t0, n, t1);
        lemma_contains_grow(t1, outline(ast), n);
    } else {
        lemma_import_step(base, xs, j - 1);
        let x = pr_imports(base, xs.take(j - 1));
        let n = import_line(xs[j - 1]) + import_line(xs[j]);
        assert(z =~= x + n);
        lemma_contains_after_prefix(x, n, t1);
        lemma_contains_grow(t1, outline(ast), n);
    }
}

/// Law: the outline lists every option on a line `  NAME = HINT`, in
/// order: the first right after the `Options:` title, each next one right
/// after the one before.
#[verifier::spinoff_prover]
pub proof fn law_outline_lists_options(ast: AstModel, j: int)
    requires
        0 <= j < ast.options.len(),
    ensures
        j == 0 ==> contains(outline(ast), "\nOptions:\n"@ + option_line(ast.options[0])),
        j > 0 ==> contains(
            outline(ast),
            option_line(ast.options[j - 1]) + option_line(ast.options[j]),
        ),
{
    lemma_outline_stages(ast);
    let t0 = "AST for package: "@ + ast.package + "\n"@;
    let t1 = if ast.import.len() > 0 {
        pr_imports(t0 + "\nImports:\n"@, ast.import)
    } else {
        t0
    };
    let base = t1 + "\nOptions:\n"@;
    let xs = ast.options;
    let t2 = pr_options(base, xs);
    assert(is_prefix(t2, outline(ast)));
    lemma_take_options(base, xs, j + 1);
    lemma_option_step(base, xs, j);
    let z = pr_options(base, xs.take(j + 1));
    if j == 0 {
        let n = "\nOptions:\n"@ + option_line(xs[0]);
        assert(z =~= t1 + n);
        lemma_contains_after_prefix(t1, n, t2);
        lemma_contains_grow(t2, outline(ast), n);
    } else {
        lemma_option_step(base, xs, j - 1);
        let x = pr_options(base, xs.take(j - 1));
        let n = option_line(xs[j - 1]) + option_line(xs[j]);
        assert(z =~= x + n);
        lemma_contains_after_prefix(x, n, t2);
        lemma_contains_grow(t2, outline(ast), n);
    }
}

proof fn lemma_field_step(acc: Seq<char>, xs: Seq<FieldModel>, k: int)
    requires
        0 <= k < xs.len(),
    ensures
        pr_fields(acc, xs.take(k + 1)) == pr_fields(acc, xs.take(k)) + field_line(xs[k]),
{
    let k1 = xs.take(k + 1);
    assert(k1.drop_last() =~= xs.take(k));
    assert(k1.last() == xs[k]);
    let x = pr_fields(acc, xs.take(k));
    let fd = xs[k];
    match fd.hint {
        Some(h) => assert(pr_fields(acc, k1) =~= x + field_line(fd)),
        None => assert(pr_fields(acc, k1) =~= x + field_line(fd)),
    }
}

/// Law: in the outline, each frame's block lists its attributes, one
/// `    @key(val)` line each, in order, the first right after the frame's
/// `  frame Name {` line; then its fields, one line each (`    `, the hint
/// and a space if there is one, the name, a space, the type), in order.
#[verifier::spinoff_prover]
pub proof fn law_outline_lists_frame_lines(ast: AstModel, i: int, j: int, k: int)
    requires
        0 <= i < ast.frames.len(),
    ensures
        0 == j < ast.frames[i].attrs.len() ==> contains(
            outline(ast),
            "  frame "@ + ast.frames[i].name + " {\n"@ + attr_line(ast.frames[i].attrs[0]),
        ),
        0 < j < ast.frames[i].attrs.len() ==> contains(
            outline(ast),
            attr_line(ast.frames[i].attrs[j - 1]) + attr_line(ast.frames[i].attrs[j]),
        ),
        0 <= k < ast.frames[i].fields.len() ==> contains(
            outline(ast),
            field_line(ast.frames[i].fields[k]),
        ),
        0 < k < ast.frames[i].fields.len() ==> contains(
            outline(ast),
            field_line(ast.frames[i].fields[k - 1]) + field_line(ast.frames[i].fields[k]),
        ),
{
    lemma_outline_stages(ast);
    let t0 = "AST for package: "@ + ast.package + "\n"@;
    let t1 = if ast.import.len() > 0 {
        pr_imports(t0 + "\nImports:\n"@, ast.import)
    } else {
        t0
    };
    let t2 = if ast.options.len() > 0 {
        pr_options(t1 + "\nOptions:\n"@, ast.options)
    } else {
        t1
    };
    let t3 = if ast.consts.len() > 0 {
        pr_consts(t2 + "\nConstants:\n"@, ast.consts)
    } else {
        t2
    };
    let t4 = if ast.enums.len() > 0 {
        pr_enums(t3 + "\nEnums:\n"@, ast.enums)
    } else {
        t3
    };
    let base = t4 + "\nFrames:\n"@;
    let fs = ast.frames;
    let t5 = pr_frames(base, fs);
    let f = fs[i];
    lemma_take_frames(base, fs, i + 1);
    let k1 = fs.take(i + 1);
    assert(k1.drop_last() =~= fs.take(i));
    assert(k1.last() == f);
    let y = pr_frames(base, fs.take(i));
    let h = y + "  frame "@ + f.name + " {\n"@;
    let a = pr_attrs(h, f.attrs);
    let b = pr_fields(a, f.fields);
    let c = pr_reserved(b, f.reservations);
    lemma_px_fields(a, f.fields);
    lemma_px_reserved(b, f.reservations);
    assert((c + "  }\n"@).subrange(0, c.len() as int) =~= c);
    assert(pr_frames(base, k1) == c + "  }\n"@);
    lemma_prefix_trans(c, c + "  }\n"@, t5);
    lemma_prefix_trans(c, t5, outline(ast));
    lemma_prefix_trans(b, c, outline(ast));
    lemma_prefix_trans(a, b, outline(ast));
    if 0 <= j < f.attrs.len() {
        lemma_attr_lines(h, f.attrs, j);
        if j == 0 {
            let n = "  frame "@ + f.name + " {\n"@ + attr_line(f.attrs[0]);
            assert(h + attr_line(f.attrs[0]) =~= y + n);
            lemma_contains_tail(a, y, n);
            lemma_contains_grow(a, outline(ast), n);
        } else {
            lemma_contains_grow(a, outline(ast), attr_line(f.attrs[j - 1]) + attr_line(f.attrs[j]));
        }
    }
    if 0 <= k < f.fields.len() {
        lemma_take_fields(a, f.fields, k + 1);
        lemma_prefix_trans(pr_fields(a, f.fields.take(k + 1)), b, outline(ast));
        lemma_field_step(a, f.fields, k);
        let z = pr_fields(a, f.fields.take(k + 1));
        lemma_px_refl(z);
        lemma_contains_after_prefix(pr_fields(a, f.fields.take(k)), field_line(f.fields[k]), z);
        lemma_contains_grow(z, outline(ast), field_line(f.fields[k]));
        if k > 0 {
            lemma_field_step(a, f.fields, k - 1);
            let w = pr_fields(a, f.fields.take(k - 1));
            let n = field_line(f.fields[k - 1]) + field_line(f.fields[k]);
            assert(z =~= w + n);
            assert(is_prefix(w + n, z));
            lemma_contains_after_prefix(w, n, z);
            lemma_contains_grow(z, outline(ast), n);
        }
    }
}

/// The outline's first lines for a message: its name, request and
/// response.
pub open spec fn message_head(m: MessageModel) -> Seq<char> {
    "    message "@ + m.name + " {\n"@ + "      req: "@ + m.req + "\n"@ + "      res: "@ + m.res
        + "\n"@
}

proof fn lemma_message_has_head(x: Seq<char>, m: MessageModel)
    ensures
        is_prefix(x + message_head(m), pr_message(x, m)),
{
    let head = x + "    message "@ + m.name + " {\n"@ + "      req: "@ + m.req + "\n"@
        + "      res: "@ + m.res + "\n"@;
    assert(head =~= x + message_head(m));
    let wb = match m.body {
        Some(o) => pr_option(head, o),
        None => head,
    };
    match m.body {
        Some(o) => lemma_px_option(head, o),
        None => lemma_px_refl(head),
    }
    assert((wb + "    }\n"@).subrange(0, wb.len() as int) =~= wb);
    lemma_prefix_trans(head, wb, pr_message(x, m));
}

#[verifier::spinoff_prover]
pub proof fn lemma_take_messages(acc: Seq<char>, xs: Seq<MessageModel>, k: int)
    requires
        0 <= k <= xs.len(),
    ensures
        is_prefix(pr_messages(acc, xs.take(k)), pr_messages(acc, xs)),
    decreases xs.len(),
{
    if k == xs.len() {
        assert(xs.take(k) =~= xs);
        lemma_px_refl(pr_messages(acc, xs));
    } else {
        let d = xs.drop_last();
        lemma_take_messages(acc, d, k);
        assert(d.take(k) =~= xs.take(k));
        let x = pr_messages(acc, d);
        lemma_message_has_head(x, xs.last());
        let m = xs.last();
        assert((x + message_head(m)).subrange(0, x.len() as int) =~= x);
        lemma_prefix_trans(x, x + message_head(m), pr_messages(acc, xs));
        lemma_prefix_trans(pr_messages(acc, xs.take(k)), x, pr_messages(acc, xs));
    }
}

/// Law: in the outline, each message of each photon starts with its lines
/// `    message NAME {`, `      req: REQ` and `      res: RES`.
#[verifier::spinoff_prover]
pub proof fn law_outline_lists_messages(ast: AstModel, i: int, k: int)
    requires
        0 <= i < ast.synqs.len(),
        0 <= k < ast.synqs[i].messages.len(),
    ensures
        contains(outline(ast), message_head(ast.synqs[i].messages[k])),
{
    let t5 = outline_through_frames(
        ast.package,
        ast.import,
        ast.options,
        ast.consts,
        ast.enums,
        ast.frames,
    );
    let acc = t5 + "\nPhotons:\n"@;
    let ps = ast.synqs;
    let p = ps[i];
    lemma_take_photons(acc, ps, i + 1);
    let t1 = ps.take(i + 1);
    assert(t1.drop_last() =~= ps.take(i));
    assert(t1.last() == p);
    let x = pr_photons(acc, ps.take(i));
    let h = x + "  synq "@ + p.name + " {\n"@;
    let a = pr_attrs(h, p.attrs);
    let b = pr_messages(a, p.messages);
    assert((b + "  }\n"@).subrange(0, b.len() as int) =~= b);
    assert(pr_photons(acc, t1) == b + "  }\n"@);
    lemma_prefix_trans(b, pr_photons(acc, t1), outline(ast));
    let ms = p.messages;
    lemma_take_messages(a, ms, k + 1);
    let m1 = ms.take(k + 1);
    assert(m1.drop_last() =~= ms.take(k));
    assert(m1.last() == ms[k]);
    let y = pr_messages(a, ms.take(k));
    lemma_message_has_head(y, ms[k]);
    lemma_prefix_trans(y + message_head(ms[k]), pr_messages(a, m1), b);
    lemma_contains_after_prefix(y, message_head(ms[k]), b);
    lemma_contains_grow(b, outline(ast), message_head(ms[k]));
}

} // verus!
